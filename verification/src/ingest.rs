//! Block ingestion: the transitions the consumer loop drives, one per
//! transaction, block and feed step, with the laws that hold of them.
//!
//! A write that fails never stops ingestion: the failure is reported and the
//! loop goes on, and the transitions here say exactly what state that leaves
//! behind.

use vstd::prelude::*;
use crate::address::Address;
use crate::classify::{classify, classify_spec, ChainTx, Flow};
use crate::ledger::{
    consistent, flow_delta, insert_model, lemma_signed_sum_push, update_model, LedgerModel,
    LedgerState, Row, Transaction,
};
use crate::time::now_timestamp;
use crate::watch::WatchSet;

verus! {

/// A full block as the feed's fetch capability returns it: its number and
/// its transactions, in block order.
#[derive(Debug)]
pub struct Block {
    pub number: u64,
    pub transactions: Vec<ChainTx>,
}

/// What became of one transaction during ingestion.
#[derive(PartialEq, Eq, Structural, Clone, Copy, Debug)]
pub enum TxOutcome {
    /// The classifier yielded nothing; no write was attempted.
    NotRelevant,
    /// The row was appended and the aggregate updated.
    Recorded,
    /// The row was refused as a duplicate; the aggregate was still updated.
    AppendFailed,
    /// The row was appended, but the aggregate update was refused.
    UpdateFailed,
    /// Both writes were refused.
    BothFailed,
}

/// The recipient of a transaction that has one.
pub open spec fn recipient(tx: ChainTx) -> Address
    recommends
        tx.to is Some,
{
    match tx.to {
        Some(a) => a,
        None => Address { hi: 0, lo: 0 },
    }
}

/// The row a matched transaction is recorded as.
pub open spec fn event_row(tx: ChainTx, f: Flow, block_number: u64, ts: Seq<char>) -> Row {
    Row {
        tx_hash: tx.hash,
        block_number: block_number,
        from_address: tx.from,
        to_address: recipient(tx),
        value: f.value,
        direction: f.direction,
        timestamp: ts,
    }
}

/// What ingesting one transaction does to the ledger: nothing when the
/// classifier yields nothing; otherwise the append is attempted and then,
/// whether or not the append was refused, the aggregate update.
pub open spec fn tx_model(
    m: LedgerModel,
    watch: Set<Address>,
    tx: ChainTx,
    block_number: u64,
    ts: Seq<char>,
) -> LedgerModel {
    match classify_spec(watch, tx) {
        None => m,
        Some(f) => {
            let m1 = insert_model(m, event_row(tx, f, block_number, ts)).0;
            update_model(m1, flow_delta(f), ts).0
        },
    }
}

/// Both writes for the transaction go through (vacuously true where none is
/// attempted).
pub open spec fn tx_succeeds(
    m: LedgerModel,
    watch: Set<Address>,
    tx: ChainTx,
    block_number: u64,
    ts: Seq<char>,
) -> bool {
    match classify_spec(watch, tx) {
        None => true,
        Some(f) => {
            let row = event_row(tx, f, block_number, ts);
            &&& insert_model(m, row).1
            &&& update_model(insert_model(m, row).0, flow_delta(f), ts).1
        },
    }
}

/// The outcome ingesting one transaction reports.
pub open spec fn tx_outcome_spec(
    m: LedgerModel,
    watch: Set<Address>,
    tx: ChainTx,
    block_number: u64,
    ts: Seq<char>,
) -> TxOutcome {
    match classify_spec(watch, tx) {
        None => TxOutcome::NotRelevant,
        Some(f) => {
            let row = event_row(tx, f, block_number, ts);
            let appended = insert_model(m, row).1;
            let updated = update_model(insert_model(m, row).0, flow_delta(f), ts).1;
            if appended && updated {
                TxOutcome::Recorded
            } else if appended {
                TxOutcome::UpdateFailed
            } else if updated {
                TxOutcome::AppendFailed
            } else {
                TxOutcome::BothFailed
            }
        },
    }
}

/// Ingests one transaction: classifies it and, on a match, appends the row
/// and applies the delta, each failure contained.  The ledger afterwards is
/// exactly what the transition says, and the outcome reports which writes
/// went through.
pub fn process_transaction(
    watch: &WatchSet,
    ledger: &mut LedgerState,
    tx: &ChainTx,
    block_number: u64,
    ts: &str,
) -> (r: TxOutcome)
    ensures
        final(ledger)@ == tx_model(old(ledger)@, watch@, *tx, block_number, ts@),
        r == tx_outcome_spec(old(ledger)@, watch@, *tx, block_number, ts@),
{
    let to = match tx.to {
        None => {
            return TxOutcome::NotRelevant;
        },
        Some(a) => a,
    };
    match classify(tx, watch) {
        None => TxOutcome::NotRelevant,
        Some(f) => {
            let row = Transaction {
                tx_hash: tx.hash,
                block_number: block_number,
                from_address: tx.from,
                to_address: to,
                value: f.value,
                direction: f.direction,
                timestamp: ts.to_owned(),
            };
            proof {
                assert(row@ =~= event_row(*tx, f, block_number, ts@));
            }
            let appended = ledger.insert_transaction(row).is_ok();
            let updated = ledger.update_net_flow(f, ts).is_ok();
            if appended && updated {
                TxOutcome::Recorded
            } else if appended {
                TxOutcome::UpdateFailed
            } else if updated {
                TxOutcome::AppendFailed
            } else {
                TxOutcome::BothFailed
            }
        },
    }
}

/// What ingesting a block's transactions, in block order, does to the ledger.
pub open spec fn txs_model(
    m: LedgerModel,
    watch: Set<Address>,
    txs: Seq<ChainTx>,
    block_number: u64,
    ts: Seq<char>,
) -> LedgerModel
    decreases txs.len(),
{
    if txs.len() == 0 {
        m
    } else {
        tx_model(
            txs_model(m, watch, txs.drop_last(), block_number, ts),
            watch,
            txs.last(),
            block_number,
            ts,
        )
    }
}

/// Every write of the block goes through.
pub open spec fn txs_succeed(
    m: LedgerModel,
    watch: Set<Address>,
    txs: Seq<ChainTx>,
    block_number: u64,
    ts: Seq<char>,
) -> bool
    decreases txs.len(),
{
    if txs.len() == 0 {
        true
    } else {
        &&& txs_succeed(m, watch, txs.drop_last(), block_number, ts)
        &&& tx_succeeds(
            txs_model(m, watch, txs.drop_last(), block_number, ts),
            watch,
            txs.last(),
            block_number,
            ts,
        )
    }
}

/// Ingests a full block: every transaction in block order, failures
/// contained.
pub fn process_block(watch: &WatchSet, ledger: &mut LedgerState, block: &Block, ts: &str)
    ensures
        final(ledger)@ == txs_model(old(ledger)@, watch@, block.transactions@, block.number, ts@),
{
    let n = block.transactions.len();
    let mut i: usize = 0;
    while i < n
        invariant
            i <= n,
            n == block.transactions@.len(),
            ledger@ == txs_model(
                old(ledger)@,
                watch@,
                block.transactions@.subrange(0, i as int),
                block.number,
                ts@,
            ),
        decreases n - i,
    {
        let ghost pre = block.transactions@.subrange(0, i as int);
        process_transaction(watch, ledger, &block.transactions[i], block.number, ts);
        proof {
            let cur = block.transactions@.subrange(0, i as int + 1);
            assert(cur.drop_last() =~= pre);
            assert(cur.last() == block.transactions@[i as int]);
        }
        i = i + 1;
    }
    proof {
        assert(block.transactions@.subrange(0, n as int) =~= block.transactions@);
    }
}

/// Ingests a block with the observation time taken at the call: what
/// `process_block` does, for the timestamp the clock returned.
pub fn ingest_block(watch: &WatchSet, ledger: &mut LedgerState, block: &Block)
    ensures
        exists|ts: Seq<char>|
            ts.len() > 0 && final(ledger)@ == txs_model(
                old(ledger)@,
                watch@,
                block.transactions@,
                block.number,
                ts,
            ),
{
    let stamp = now_timestamp();
    process_block(watch, ledger, block, stamp.as_str());
    proof {
        assert(final(ledger)@ == txs_model(
            old(ledger)@,
            watch@,
            block.transactions@,
            block.number,
            stamp@,
        ));
    }
}

/// What a finite run of feed deliveries does: a block whose fetch failed
/// (`None`) is skipped, a fetched block is ingested whole.
pub open spec fn feed_model(
    m: LedgerModel,
    watch: Set<Address>,
    blocks: Seq<Option<Block>>,
    ts: Seq<char>,
) -> LedgerModel
    decreases blocks.len(),
{
    if blocks.len() == 0 {
        m
    } else {
        let rest = feed_model(m, watch, blocks.drop_last(), ts);
        match blocks.last() {
            None => rest,
            Some(b) => txs_model(rest, watch, b.transactions@, b.number, ts),
        }
    }
}

/// Every write of the whole run goes through.
pub open spec fn feed_succeeds(
    m: LedgerModel,
    watch: Set<Address>,
    blocks: Seq<Option<Block>>,
    ts: Seq<char>,
) -> bool
    decreases blocks.len(),
{
    if blocks.len() == 0 {
        true
    } else {
        &&& feed_succeeds(m, watch, blocks.drop_last(), ts)
        &&& match blocks.last() {
            None => true,
            Some(b) => txs_succeed(
                feed_model(m, watch, blocks.drop_last(), ts),
                watch,
                b.transactions@,
                b.number,
                ts,
            ),
        }
    }
}

/// Ingests a finite run of feed deliveries: each fetched block whole, each
/// failed fetch skipped, in order.
pub fn process_feed(
    watch: &WatchSet,
    ledger: &mut LedgerState,
    blocks: &Vec<Option<Block>>,
    ts: &str,
)
    ensures
        final(ledger)@ == feed_model(old(ledger)@, watch@, blocks@, ts@),
{
    let n = blocks.len();
    let mut i: usize = 0;
    while i < n
        invariant
            i <= n,
            n == blocks@.len(),
            ledger@ == feed_model(old(ledger)@, watch@, blocks@.subrange(0, i as int), ts@),
        decreases n - i,
    {
        let ghost pre = blocks@.subrange(0, i as int);
        match &blocks[i] {
            None => {},
            Some(b) => {
                process_block(watch, ledger, b, ts);
            },
        }
        proof {
            let cur = blocks@.subrange(0, i as int + 1);
            assert(cur.drop_last() =~= pre);
            assert(cur.last() == blocks@[i as int]);
        }
        i = i + 1;
    }
    proof {
        assert(blocks@.subrange(0, n as int) =~= blocks@);
    }
}

/// One contained transaction keeps the ledger consistent: where both writes
/// go through, the appended row's signed value is exactly the delta applied.
proof fn lemma_tx_consistency(
    m: LedgerModel,
    watch: Set<Address>,
    tx: ChainTx,
    block_number: u64,
    ts: Seq<char>,
)
    requires
        consistent(m),
        tx_succeeds(m, watch, tx, block_number, ts),
    ensures
        consistent(tx_model(m, watch, tx, block_number, ts)),
{
    match classify_spec(watch, tx) {
        None => {},
        Some(f) => {
            let row = event_row(tx, f, block_number, ts);
            lemma_signed_sum_push(m.rows, row);
        },
    }
}

/// A whole block of contained transactions keeps the ledger consistent.
proof fn lemma_txs_consistency(
    m: LedgerModel,
    watch: Set<Address>,
    txs: Seq<ChainTx>,
    block_number: u64,
    ts: Seq<char>,
)
    requires
        consistent(m),
        txs_succeed(m, watch, txs, block_number, ts),
    ensures
        consistent(txs_model(m, watch, txs, block_number, ts)),
    decreases txs.len(),
{
    if txs.len() > 0 {
        lemma_txs_consistency(m, watch, txs.drop_last(), block_number, ts);
        lemma_tx_consistency(
            txs_model(m, watch, txs.drop_last(), block_number, ts),
            watch,
            txs.last(),
            block_number,
            ts,
        );
    }
}

/// Aggregate consistency: after any finite run of feed deliveries in which
/// every attempted write goes through, the aggregate equals the signed sum
/// of the recorded rows — outflow rows counting negative, inflow rows
/// positive.
pub proof fn lemma_aggregate_consistency(
    m: LedgerModel,
    watch: Set<Address>,
    blocks: Seq<Option<Block>>,
    ts: Seq<char>,
)
    requires
        consistent(m),
        feed_succeeds(m, watch, blocks, ts),
    ensures
        consistent(feed_model(m, watch, blocks, ts)),
    decreases blocks.len(),
{
    if blocks.len() > 0 {
        lemma_aggregate_consistency(m, watch, blocks.drop_last(), ts);
        match blocks.last() {
            None => {},
            Some(b) => {
                lemma_txs_consistency(
                    feed_model(m, watch, blocks.drop_last(), ts),
                    watch,
                    b.transactions@,
                    b.number,
                    ts,
                );
            },
        }
    }
}

/// Resilience to missing blocks: a delivery whose fetch failed changes
/// nothing, and the deliveries after it are ingested exactly as they would
/// have been without it.
pub proof fn lemma_missing_block_skipped(
    m: LedgerModel,
    watch: Set<Address>,
    before: Seq<Option<Block>>,
    after: Seq<Option<Block>>,
    ts: Seq<char>,
)
    ensures
        feed_model(m, watch, before + seq![Option::<Block>::None] + after, ts) == feed_model(
            m,
            watch,
            before + after,
            ts,
        ),
    decreases after.len(),
{
    if after.len() == 0 {
        assert(before + seq![Option::<Block>::None] + after =~= before.push(
            Option::<Block>::None,
        ));
        assert(before.push(Option::<Block>::None).drop_last() =~= before);
        assert(before + after =~= before);
    } else {
        let b = after.last();
        lemma_missing_block_skipped(m, watch, before, after.drop_last(), ts);
        assert(before + seq![Option::<Block>::None] + after =~= (before + seq![
            Option::<Block>::None,
        ] + after.drop_last()).push(b));
        assert(before + after =~= (before + after.drop_last()).push(b));
        assert((before + seq![Option::<Block>::None] + after.drop_last()).push(b).drop_last()
            =~= before + seq![Option::<Block>::None] + after.drop_last());
        assert((before + after.drop_last()).push(b).drop_last() =~= before + after.drop_last());
    }
}

} // verus!
