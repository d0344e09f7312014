//! Consensus core of a leader-based replicated log.
//!
//! - `ballot`: ballots and their total order.
//! - `storage`: the log of one replica, with its trim and decided boundaries.
//! - `ble`: ballot leader election over heartbeat rounds.
//! - `sequence_paxos`: the replication engine (prepare, accept, decide, trim).
//! - `watch`: registry of callers waiting for an index to be decided.
//! - `ui`: read-only projection of a replica's state.
pub mod ballot;
pub mod storage;
pub mod ble;
pub mod sequence_paxos;
pub mod ui;
pub mod watch;
