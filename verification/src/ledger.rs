//! The ledger: an append-only log of recorded flow events next to one
//! mutable aggregate, the cumulative net flow.
//!
//! This type is the library's model of the durable store: appending a row is
//! refused on a duplicate transaction hash, and the aggregate is read, added
//! to and written back as one operation.  The process that owns a durable
//! store performs the same two writes against it; their semantics are stated
//! and proved here.

use vstd::prelude::*;
use crate::address::{Address, TxHash};
use crate::classify::{Direction, Flow};

verus! {

/// One recorded flow event: a row of the transaction log.  The value is the
/// absolute amount moved, in the chain's smallest unit; the direction says
/// which way it moved relative to the watch set.  The timestamp is the time
/// the event was observed, as RFC 3339 text.
#[derive(Debug)]
pub struct Transaction {
    pub tx_hash: TxHash,
    pub block_number: u64,
    pub from_address: Address,
    pub to_address: Address,
    pub value: u128,
    pub direction: Direction,
    pub timestamp: String,
}

/// The mathematical counterpart of a row: the timestamp as a character
/// sequence, everything else as the row holds it.
#[verifier::ext_equal]
pub ghost struct Row {
    pub tx_hash: TxHash,
    pub block_number: u64,
    pub from_address: Address,
    pub to_address: Address,
    pub value: u128,
    pub direction: Direction,
    pub timestamp: Seq<char>,
}

impl View for Transaction {
    type V = Row;

    open spec fn view(&self) -> Row {
        Row {
            tx_hash: self.tx_hash,
            block_number: self.block_number,
            from_address: self.from_address,
            to_address: self.to_address,
            value: self.value,
            direction: self.direction,
            timestamp: self.timestamp@,
        }
    }
}

/// Why a ledger write was refused.
#[derive(PartialEq, Eq, Structural, Clone, Copy, Debug)]
pub enum StoreError {
    /// The transaction hash is already recorded.
    DuplicateKey,
    /// The store could not be reached (only a durable store raises this;
    /// the in-memory ledger never does).
    Unavailable,
    /// The aggregate would leave the representable range.
    Overflow,
}

/// Is a row with this transaction hash present?
pub open spec fn row_hash_present(rows: Seq<Row>, h: TxHash) -> bool {
    exists|i: int| 0 <= i < rows.len() && rows[i].tx_hash == h
}

/// How many rows carry this transaction hash.
pub open spec fn count_hash(rows: Seq<Row>, h: TxHash) -> nat
    decreases rows.len(),
{
    if rows.len() == 0 {
        0
    } else {
        count_hash(rows.drop_last(), h) + if rows.last().tx_hash == h {
            1nat
        } else {
            0nat
        }
    }
}

/// The signed contribution of one row to the net flow: positive for an
/// inflow, negative for an outflow.
pub open spec fn signed_value(r: Row) -> int {
    match r.direction {
        Direction::Inflow => r.value as int,
        Direction::Outflow => -(r.value as int),
    }
}

/// The signed sum of all recorded rows.
pub open spec fn signed_sum(rows: Seq<Row>) -> int
    decreases rows.len(),
{
    if rows.len() == 0 {
        0
    } else {
        signed_sum(rows.drop_last()) + signed_value(rows.last())
    }
}

/// The mathematical state of the ledger.
#[verifier::ext_equal]
pub ghost struct LedgerModel {
    pub rows: Seq<Row>,
    pub net_flow: int,
    pub last_updated: Seq<char>,
}

/// The ledger is consistent when the aggregate equals the signed sum of the
/// recorded rows.
pub open spec fn consistent(m: LedgerModel) -> bool {
    m.net_flow == signed_sum(m.rows)
}

/// What appending a row does: nothing on a duplicate hash (second component
/// false), otherwise the row goes at the end.
pub open spec fn insert_model(m: LedgerModel, row: Row) -> (LedgerModel, bool) {
    if row_hash_present(m.rows, row.tx_hash) {
        (m, false)
    } else {
        (
            LedgerModel {
                rows: m.rows.push(row),
                net_flow: m.net_flow,
                last_updated: m.last_updated,
            },
            true,
        )
    }
}

/// The signed delta a classified flow applies to the aggregate.
pub open spec fn flow_delta(f: Flow) -> int {
    match f.direction {
        Direction::Inflow => f.value as int,
        Direction::Outflow => -(f.value as int),
    }
}

/// Would the aggregate stay representable after adding the delta?
pub open spec fn delta_fits(net: int, d: int) -> bool {
    i128::MIN <= net + d <= i128::MAX
}

/// What applying a delta does: adds it and stamps the aggregate when the
/// result is representable (second component true), otherwise nothing.
pub open spec fn update_model(m: LedgerModel, d: int, ts: Seq<char>) -> (LedgerModel, bool) {
    if delta_fits(m.net_flow, d) {
        (LedgerModel { rows: m.rows, net_flow: m.net_flow + d, last_updated: ts }, true)
    } else {
        (m, false)
    }
}

/// The ledger itself: the log, the aggregate, and the time of its last
/// update (empty text while no update has happened, as for a store whose
/// aggregate row does not exist yet and so reads as zero).
pub struct LedgerState {
    pub rows: Vec<Transaction>,
    pub net_flow: i128,
    pub last_updated: String,
}

/// The rows of the log as mathematical rows.
pub open spec fn rows_view(rows: Seq<Transaction>) -> Seq<Row> {
    rows.map_values(|t: Transaction| t@)
}

impl View for LedgerState {
    type V = LedgerModel;

    open spec fn view(&self) -> LedgerModel {
        LedgerModel {
            rows: rows_view(self.rows@),
            net_flow: self.net_flow as int,
            last_updated: self.last_updated@,
        }
    }
}

impl LedgerState {
    /// An empty ledger: no rows, a zero aggregate, and no update time.
    pub fn new() -> (r: LedgerState)
        ensures
            r@.rows == Seq::<Row>::empty(),
            r@.net_flow == 0,
            r@.last_updated == Seq::<char>::empty(),
            consistent(r@),
    {
        let r = LedgerState { rows: Vec::new(), net_flow: 0, last_updated: String::new() };
        proof {
            assert(r@.rows =~= Seq::<Row>::empty());
        }
        r
    }

    /// Appends a row to the log.  Refused, and the ledger left unchanged,
    /// exactly when a row with the same transaction hash is already present;
    /// otherwise the row becomes the last of the log.  The aggregate is not
    /// touched either way.
    pub fn insert_transaction(&mut self, tx: Transaction) -> (r: Result<(), StoreError>)
        ensures
            final(self)@ == insert_model(old(self)@, tx@).0,
            (r is Ok) == insert_model(old(self)@, tx@).1,
            (r is Ok) == !row_hash_present(old(self)@.rows, tx@.tx_hash),
            r is Err ==> r == Err::<(), StoreError>(StoreError::DuplicateKey),
    {
        let n = self.rows.len();
        let mut i: usize = 0;
        while i < n
            invariant
                i <= n,
                n == self.rows@.len(),
                *self == *old(self),
                forall|j: int| 0 <= j < i ==> self.rows@[j].tx_hash != tx.tx_hash,
            decreases n - i,
        {
            if self.rows[i].tx_hash == tx.tx_hash {
                proof {
                    assert(rows_view(self.rows@)[i as int].tx_hash == tx@.tx_hash);
                }
                return Err(StoreError::DuplicateKey);
            }
            i = i + 1;
        }
        proof {
            assert forall|j: int| 0 <= j < rows_view(self.rows@).len() implies rows_view(
                self.rows@,
            )[j].tx_hash != tx@.tx_hash by {
                assert(rows_view(self.rows@)[j] == self.rows@[j]@);
            }
        }
        let ghost txv = tx@;
        self.rows.push(tx);
        proof {
            assert(rows_view(self.rows@) =~= rows_view(old(self).rows@).push(txv));
        }
        Ok(())
    }

    /// Adds a signed delta to the aggregate and stamps it, in one step on
    /// this state.  Returns the new total; refused, with nothing changed,
    /// exactly when the total would leave the representable range.  The log
    /// is not touched either way.
    pub fn update_net_flow(&mut self, flow: Flow, ts: &str) -> (r: Result<i128, StoreError>)
        ensures
            final(self)@ == update_model(old(self)@, flow_delta(flow), ts@).0,
            (r is Ok) == update_model(old(self)@, flow_delta(flow), ts@).1,
            (r is Ok) == delta_fits(old(self)@.net_flow, flow_delta(flow)),
            r matches Ok(v) ==> v as int == old(self)@.net_flow + flow_delta(flow),
            r is Err ==> r == Err::<i128, StoreError>(StoreError::Overflow),
    {
        let total = match flow.direction {
            Direction::Inflow => checked_add_value(self.net_flow, flow.value),
            Direction::Outflow => checked_sub_value(self.net_flow, flow.value),
        };
        match total {
            Some(t) => {
                self.net_flow = t;
                self.last_updated = ts.to_owned();
                proof {
                    assert(final(self)@.rows =~= update_model(
                        old(self)@,
                        flow_delta(flow),
                        ts@,
                    ).0.rows);
                }
                Ok(t)
            },
            None => Err(StoreError::Overflow),
        }
    }
}

/// The magnitude of half the `i128` range: the value of `i128::MIN`, negated.
pub const I128_MIN_MAGNITUDE: u128 = 170141183460469231731687303715884105728;

/// `total + amount` when it stays within `i128`, `None` otherwise.
fn checked_add_value(total: i128, amount: u128) -> (r: Option<i128>)
    ensures
        match r {
            Some(s) => s as int == total as int + amount as int,
            None => total as int + amount as int > i128::MAX as int,
        },
{
    if total >= 0 {
        let room: u128 = (i128::MAX - total) as u128;
        if amount <= room {
            Some(total + (amount as i128))
        } else {
            None
        }
    } else {
        let neg: u128 = if total == i128::MIN {
            I128_MIN_MAGNITUDE
        } else {
            (-total) as u128
        };
        if amount >= neg {
            let diff: u128 = amount - neg;
            if diff <= (i128::MAX as u128) {
                Some(diff as i128)
            } else {
                None
            }
        } else {
            let d: u128 = neg - amount;
            if d == I128_MIN_MAGNITUDE {
                Some(i128::MIN)
            } else {
                Some(-(d as i128))
            }
        }
    }
}

/// `total - amount` when it stays within `i128`, `None` otherwise.
fn checked_sub_value(total: i128, amount: u128) -> (r: Option<i128>)
    ensures
        match r {
            Some(s) => s as int == total as int - amount as int,
            None => (total as int - amount as int) < i128::MIN as int,
        },
{
    if total >= 0 {
        let tu: u128 = total as u128;
        if amount <= tu {
            Some((tu - amount) as i128)
        } else {
            let d: u128 = amount - tu;
            if d < I128_MIN_MAGNITUDE {
                Some(-(d as i128))
            } else if d == I128_MIN_MAGNITUDE {
                Some(i128::MIN)
            } else {
                None
            }
        }
    } else {
        let neg: u128 = if total == i128::MIN {
            I128_MIN_MAGNITUDE
        } else {
            (-total) as u128
        };
        let room: u128 = I128_MIN_MAGNITUDE - neg;
        if amount <= room {
            let d: u128 = neg + amount;
            if d == I128_MIN_MAGNITUDE {
                Some(i128::MIN)
            } else {
                Some(-(d as i128))
            }
        } else {
            None
        }
    }
}

/// No row carries the hash exactly when the count of such rows is zero.
pub proof fn lemma_count_zero(rows: Seq<Row>, h: TxHash)
    ensures
        (count_hash(rows, h) == 0) <==> !row_hash_present(rows, h),
    decreases rows.len(),
{
    if rows.len() == 0 {
    } else {
        lemma_count_zero(rows.drop_last(), h);
        if row_hash_present(rows, h) {
            let i = choose|i: int| 0 <= i < rows.len() && rows[i].tx_hash == h;
            if i < rows.len() - 1 {
                assert(rows.drop_last()[i].tx_hash == h);
            }
        } else {
            assert forall|i: int| 0 <= i < rows.drop_last().len() implies rows.drop_last()[
                i
            ].tx_hash != h by {
                assert(rows.drop_last()[i] == rows[i]);
            }
        }
    }
}

/// Appending one row adds its signed value to the signed sum.
pub proof fn lemma_signed_sum_push(rows: Seq<Row>, r: Row)
    ensures
        signed_sum(rows.push(r)) == signed_sum(rows) + signed_value(r),
{
    assert(rows.push(r).drop_last() =~= rows);
    assert(rows.push(r).last() == r);
}

/// Appending one row raises the count of its hash by one and leaves every
/// other count alone.
pub proof fn lemma_count_push(rows: Seq<Row>, r: Row, h: TxHash)
    ensures
        count_hash(rows.push(r), h) == count_hash(rows, h) + if r.tx_hash == h {
            1nat
        } else {
            0nat
        },
{
    assert(rows.push(r).drop_last() =~= rows);
    assert(rows.push(r).last() == r);
}

/// Appending the same transaction hash twice leaves exactly one row with it:
/// the second append is refused and changes nothing.
pub proof fn lemma_append_idempotent(m: LedgerModel, first: Row, second: Row)
    requires
        !row_hash_present(m.rows, first.tx_hash),
        second.tx_hash == first.tx_hash,
    ensures
        ({
            let m1 = insert_model(m, first).0;
            &&& insert_model(m, first).1
            &&& insert_model(m1, second).0 == m1
            &&& !insert_model(m1, second).1
            &&& count_hash(m1.rows, first.tx_hash) == 1
        }),
{
    let m1 = insert_model(m, first).0;
    assert(m1.rows == m.rows.push(first));
    assert(m1.rows[m.rows.len() as int].tx_hash == first.tx_hash);
    assert(row_hash_present(m1.rows, second.tx_hash));
    lemma_count_zero(m.rows, first.tx_hash);
    lemma_count_push(m.rows, first, first.tx_hash);
}

} // verus!
