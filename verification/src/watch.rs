//! The watch set: the fixed collection of addresses whose value movements
//! are tracked.  Built once at startup and only ever read afterwards.

use vstd::prelude::*;
use crate::address::Address;

verus! {

/// An immutable set of watched addresses.  Its view is the mathematical set
/// of the addresses it was built from.
pub struct WatchSet {
    addrs: Vec<Address>,
}

impl View for WatchSet {
    type V = Set<Address>;

    closed spec fn view(&self) -> Set<Address> {
        self.addrs@.to_set()
    }
}

impl WatchSet {
    /// Builds the watch set from the given addresses.
    pub fn new(addrs: Vec<Address>) -> (r: WatchSet)
        ensures
            r@ == addrs@.to_set(),
    {
        WatchSet { addrs }
    }

    /// Membership test: does the set hold this address?
    pub fn contains(&self, a: &Address) -> (r: bool)
        ensures
            r == self@.contains(*a),
    {
        let mut i: usize = 0;
        while i < self.addrs.len()
            invariant
                i <= self.addrs@.len(),
                forall|j: int| 0 <= j < i ==> self.addrs@[j] != *a,
            decreases self.addrs@.len() - i,
        {
            if self.addrs[i] == *a {
                return true;
            }
            i = i + 1;
        }
        proof {
            assert(!self.addrs@.contains(*a));
        }
        false
    }
}

} // verus!
