use netflow::address::{Address, TxHash};
use netflow::classify::{display_parts, ChainTx, Direction, SCALE};
use netflow::ingest::{ingest_block, process_block, process_feed, process_transaction, Block, TxOutcome};
use netflow::ledger::LedgerState;
use netflow::watch::WatchSet;

const TS: &str = "2026-01-01T00:00:00+00:00";

fn aaa() -> Address {
    Address::from_hex(b"0xAAAAAAAAAAAAAAAAAAAAAAAAAAAAAAAAAAAAAAAA").unwrap()
}

fn bbb() -> Address {
    Address::from_hex(b"0xBBBBBBBBBBBBBBBBBBBBBBBBBBBBBBBBBBBBBBBB").unwrap()
}

fn ccc() -> Address {
    Address::from_hex(b"0xCCCCCCCCCCCCCCCCCCCCCCCCCCCCCCCCCCCCCCCC").unwrap()
}

fn tx(hash: u128, from: Address, to: Address, value: u128) -> ChainTx {
    ChainTx { hash: TxHash { hi: 0, lo: hash }, from, to: Some(to), value }
}

fn block(number: u64, txs: Vec<ChainTx>) -> Block {
    Block { number, transactions: txs }
}

/// The signed sum over the recorded rows, recomputed from the stored
/// direction: the shadow the aggregate must agree with.
fn shadow_sum(l: &LedgerState) -> i128 {
    let mut total: i128 = 0;
    for r in &l.rows {
        match r.direction {
            Direction::Inflow => total += r.value as i128,
            Direction::Outflow => total -= r.value as i128,
        }
    }
    total
}

#[test]
fn watched_outflow_block_100() {
    let w = WatchSet::new(vec![aaa()]);
    let mut l = LedgerState::new();
    process_block(&w, &mut l, &block(100, vec![tx(1, aaa(), bbb(), 2 * SCALE)]), TS);
    assert_eq!(l.rows.len(), 1);
    assert_eq!(l.rows[0].from_address, aaa());
    assert_eq!(l.rows[0].to_address, bbb());
    assert_eq!(l.rows[0].block_number, 100);
    assert_eq!(display_parts(l.rows[0].value), (2, 0));
    assert_eq!(l.net_flow, -2 * SCALE as i128);
}

#[test]
fn inflow_block_101_raises_total() {
    let w = WatchSet::new(vec![aaa()]);
    let mut l = LedgerState::new();
    process_block(&w, &mut l, &block(100, vec![tx(1, aaa(), bbb(), 2 * SCALE)]), TS);
    process_block(&w, &mut l, &block(101, vec![tx(2, ccc(), aaa(), 5 * SCALE)]), TS);
    assert_eq!(l.rows.len(), 2);
    assert_eq!(display_parts(l.rows[1].value), (5, 0));
    assert_eq!(l.net_flow, 3 * SCALE as i128);
}

#[test]
fn self_transfer_block_102_changes_nothing() {
    let w = WatchSet::new(vec![aaa()]);
    let mut l = LedgerState::new();
    process_block(&w, &mut l, &block(100, vec![tx(1, aaa(), bbb(), 2 * SCALE)]), TS);
    process_block(&w, &mut l, &block(101, vec![tx(2, ccc(), aaa(), 5 * SCALE)]), TS);
    process_block(&w, &mut l, &block(102, vec![tx(3, aaa(), aaa(), SCALE)]), TS);
    assert_eq!(l.rows.len(), 2);
    assert_eq!(l.net_flow, 3 * SCALE as i128);
}

#[test]
fn aggregate_agrees_with_shadow_ledger() {
    let w = WatchSet::new(vec![aaa()]);
    let mut l = LedgerState::new();
    let feed = vec![
        Some(block(100, vec![tx(1, aaa(), bbb(), 2 * SCALE), tx(2, bbb(), ccc(), 9 * SCALE)])),
        Some(block(101, vec![tx(3, ccc(), aaa(), 5 * SCALE)])),
        None,
        Some(block(103, vec![tx(4, aaa(), ccc(), SCALE / 4), tx(5, bbb(), aaa(), 7)])),
    ];
    process_feed(&w, &mut l, &feed, TS);
    assert_eq!(l.rows.len(), 4);
    assert_eq!(l.net_flow, shadow_sum(&l));
}

#[test]
fn missing_block_is_skipped_and_ingestion_continues() {
    let w = WatchSet::new(vec![aaa()]);

    let mut with_gap = LedgerState::new();
    let feed = vec![None, Some(block(101, vec![tx(1, ccc(), aaa(), 5 * SCALE)]))];
    process_feed(&w, &mut with_gap, &feed, TS);

    let mut without_gap = LedgerState::new();
    let feed = vec![Some(block(101, vec![tx(1, ccc(), aaa(), 5 * SCALE)]))];
    process_feed(&w, &mut without_gap, &feed, TS);

    assert_eq!(with_gap.rows.len(), 1);
    assert_eq!(with_gap.rows[0].value, 5 * SCALE);
    assert_eq!(with_gap.net_flow, without_gap.net_flow);
    assert_eq!(with_gap.rows.len(), without_gap.rows.len());
}

#[test]
fn duplicate_delivery_keeps_one_row() {
    let w = WatchSet::new(vec![aaa()]);
    let mut l = LedgerState::new();
    let b = block(100, vec![tx(1, aaa(), bbb(), 2 * SCALE)]);
    process_block(&w, &mut l, &b, TS);
    process_block(&w, &mut l, &b, TS);
    assert_eq!(l.rows.len(), 1);
}

#[test]
fn per_transaction_outcomes() {
    let w = WatchSet::new(vec![aaa()]);
    let mut l = LedgerState::new();
    let t = tx(1, aaa(), bbb(), 2 * SCALE);
    assert_eq!(process_transaction(&w, &mut l, &t, 100, TS), TxOutcome::Recorded);
    assert_eq!(process_transaction(&w, &mut l, &t, 100, TS), TxOutcome::AppendFailed);
    let irrelevant = tx(2, bbb(), ccc(), SCALE);
    assert_eq!(process_transaction(&w, &mut l, &irrelevant, 100, TS), TxOutcome::NotRelevant);

    l.net_flow = i128::MAX;
    let fresh = tx(3, ccc(), aaa(), 1);
    assert_eq!(process_transaction(&w, &mut l, &fresh, 100, TS), TxOutcome::UpdateFailed);
    assert_eq!(process_transaction(&w, &mut l, &fresh, 100, TS), TxOutcome::BothFailed);
    assert_eq!(l.rows.len(), 2);
    assert_eq!(l.net_flow, i128::MAX);
}

#[test]
fn ingest_block_stamps_observation_time() {
    let w = WatchSet::new(vec![aaa()]);
    let mut l = LedgerState::new();
    ingest_block(&w, &mut l, &block(100, vec![tx(1, aaa(), bbb(), 2 * SCALE)]));
    assert_eq!(l.rows.len(), 1);
    assert!(!l.rows[0].timestamp.is_empty());
    assert!(!l.last_updated.is_empty());
}
