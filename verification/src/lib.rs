//! Coordination core of a federated-training network: the ledger-side
//! governance and request state machines, and the worker-side block watcher
//! with its deduplicated work queue.

pub mod account;
pub mod state;
pub mod contract;
pub mod types;
pub mod clock;
pub mod indexer;
pub mod ipfs;
pub mod worker;
