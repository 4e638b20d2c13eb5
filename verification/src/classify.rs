//! The flow classifier: a pure decision, per transaction, of whether the
//! transaction touches the watch set and with what signed effect.
//!
//! Values are kept in the chain's smallest unit (a fixed-point representation
//! with `SCALE` units to one display unit), so no precision is lost when they
//! are summed.

use vstd::prelude::*;
use crate::address::{Address, TxHash};
use crate::watch::WatchSet;

verus! {

/// Units of the chain's smallest denomination in one display unit.
pub const SCALE: u128 = 1_000_000_000_000_000_000;

/// A raw transaction as the feed delivers it: sender, optional recipient
/// (absent on contract creation), and the transferred value in the chain's
/// smallest unit.
#[derive(Clone, Copy, Debug)]
pub struct ChainTx {
    pub hash: TxHash,
    pub from: Address,
    pub to: Option<Address>,
    pub value: u128,
}

/// Which way value moved relative to the watch set.
#[derive(PartialEq, Eq, Structural, Clone, Copy, Debug)]
pub enum Direction {
    Inflow,
    Outflow,
}

/// A positive classified movement: its direction and absolute value in the
/// chain's smallest unit.
#[derive(PartialEq, Eq, Structural, Clone, Copy, Debug)]
pub struct Flow {
    pub direction: Direction,
    pub value: u128,
}

/// What the classifier decides: `None` when the transaction has no recipient,
/// touches the watch set at neither end or at both ends (a self-transfer nets
/// to zero and is not recorded), or moves no value; otherwise the direction
/// and the absolute value moved.
pub open spec fn classify_spec(watch: Set<Address>, tx: ChainTx) -> Option<Flow> {
    match tx.to {
        None => None,
        Some(to) => {
            let outflow = watch.contains(tx.from);
            let inflow = watch.contains(to);
            if outflow && inflow {
                None
            } else if !outflow && !inflow {
                None
            } else if tx.value == 0 {
                None
            } else if outflow {
                Some(Flow { direction: Direction::Outflow, value: tx.value })
            } else {
                Some(Flow { direction: Direction::Inflow, value: tx.value })
            }
        },
    }
}

/// Classifies one transaction against the watch set.
///
/// For every transaction with a recipient and a positive value: watched
/// sender and unwatched recipient is an outflow of the full value; the
/// symmetric case an inflow; neither or both ends watched yields nothing,
/// as does a zero value or a missing recipient.
pub fn classify(tx: &ChainTx, watch: &WatchSet) -> (r: Option<Flow>)
    ensures
        r == classify_spec(watch@, *tx),
        tx.to is None ==> r is None,
        tx.value == 0 ==> r is None,
        (tx.to matches Some(t) && watch@.contains(tx.from) && !watch@.contains(t) && tx.value > 0)
            ==> r == Some(Flow { direction: Direction::Outflow, value: tx.value }),
        (tx.to matches Some(t) && !watch@.contains(tx.from) && watch@.contains(t) && tx.value > 0)
            ==> r == Some(Flow { direction: Direction::Inflow, value: tx.value }),
        (tx.to matches Some(t) && watch@.contains(tx.from) && watch@.contains(t)) ==> r is None,
        (tx.to matches Some(t) && !watch@.contains(tx.from) && !watch@.contains(t)) ==> r is None,
{
    match tx.to {
        None => None,
        Some(to) => {
            let outflow = watch.contains(&tx.from);
            let inflow = watch.contains(&to);
            if outflow && inflow {
                None
            } else if !outflow && !inflow {
                None
            } else if tx.value == 0 {
                None
            } else if outflow {
                Some(Flow { direction: Direction::Outflow, value: tx.value })
            } else {
                Some(Flow { direction: Direction::Inflow, value: tx.value })
            }
        },
    }
}

/// Splits a value in the smallest unit into whole display units and the
/// remaining fraction of one unit: `whole * SCALE + frac == v`.
pub fn display_parts(v: u128) -> (r: (u128, u128))
    ensures
        r.0 == v / SCALE,
        r.1 == v % SCALE,
        r.0 * SCALE + r.1 == v,
        r.1 < SCALE,
{
    proof {
        vstd::arithmetic::div_mod::lemma_fundamental_div_mod(v as int, SCALE as int);
    }
    (v / SCALE, v % SCALE)
}

} // verus!
