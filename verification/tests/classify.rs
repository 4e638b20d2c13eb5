use netflow::address::{Address, TxHash};
use netflow::classify::{classify, display_parts, ChainTx, Direction, Flow, SCALE};
use netflow::watch::WatchSet;

fn addr(n: u128) -> Address {
    Address { hi: 0, lo: n }
}

fn tx(hash: u128, from: Address, to: Option<Address>, value: u128) -> ChainTx {
    ChainTx { hash: TxHash { hi: 0, lo: hash }, from, to, value }
}

fn watched(addrs: &[Address]) -> WatchSet {
    WatchSet::new(addrs.to_vec())
}

#[test]
fn outflow_from_watched_sender() {
    let w = watched(&[addr(1)]);
    let r = classify(&tx(1, addr(1), Some(addr(2)), 7 * SCALE), &w);
    assert_eq!(r, Some(Flow { direction: Direction::Outflow, value: 7 * SCALE }));
}

#[test]
fn inflow_to_watched_recipient() {
    let w = watched(&[addr(1)]);
    let r = classify(&tx(1, addr(2), Some(addr(1)), 3), &w);
    assert_eq!(r, Some(Flow { direction: Direction::Inflow, value: 3 }));
}

#[test]
fn neither_end_watched_is_nothing() {
    let w = watched(&[addr(1)]);
    let r = classify(&tx(1, addr(2), Some(addr(3)), 5), &w);
    assert_eq!(r, None);
}

#[test]
fn both_ends_watched_is_nothing() {
    let w = watched(&[addr(1), addr(2)]);
    let r = classify(&tx(1, addr(1), Some(addr(2)), 5), &w);
    assert_eq!(r, None);
}

#[test]
fn zero_value_is_nothing() {
    let w = watched(&[addr(1)]);
    assert_eq!(classify(&tx(1, addr(1), Some(addr(2)), 0), &w), None);
    assert_eq!(classify(&tx(1, addr(2), Some(addr(1)), 0), &w), None);
}

#[test]
fn missing_recipient_is_nothing() {
    let w = watched(&[addr(1)]);
    let r = classify(&tx(1, addr(1), None, 5 * SCALE), &w);
    assert_eq!(r, None);
}

#[test]
fn empty_watch_set_matches_nothing() {
    let w = watched(&[]);
    let r = classify(&tx(1, addr(1), Some(addr(2)), 5), &w);
    assert_eq!(r, None);
}

#[test]
fn display_parts_whole_units() {
    assert_eq!(display_parts(2 * SCALE), (2, 0));
    assert_eq!(display_parts(0), (0, 0));
}

#[test]
fn display_parts_fraction() {
    assert_eq!(display_parts(3 * SCALE / 2), (1, SCALE / 2));
    assert_eq!(display_parts(SCALE - 1), (0, SCALE - 1));
}
