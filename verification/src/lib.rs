//! Verified core of a blockchain net-flow monitor.
//!
//! The library watches a fixed set of addresses and maintains, next to an
//! append-only log of the matching transactions, a running signed total of
//! the value flowing into and out of that set.  Classification of a
//! transaction, the ledger's append-and-accumulate semantics, and the
//! block-ingestion transitions are all verified; the surrounding process
//! (feed subscription, the durable store) lives outside the library and
//! drives it with plain values.

#![allow(unused_imports)]

pub mod address;
pub mod classify;
pub mod ingest;
pub mod ledger;
mod time;
pub mod watch;
