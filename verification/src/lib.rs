//! An embeddable indexer core: it ingests raw Bitcoin transactions, presents
//! each one exactly once to the embedding application, and keeps a persistent
//! ledger of application-computed balance deltas whose entries are confirmed,
//! dropped or reversed as chain state evolves.
//!
//! The crate holds the verified logic: the key-value store model, the record
//! codec, the delta ledger, and the processor state machine. Channel plumbing,
//! sockets and the RPC client live with the embedding application.

pub mod batch;
pub mod codec;
pub mod kv;
pub mod ledger;
pub mod processor;
pub mod restore;
pub mod txid;
pub mod types;
pub mod wire;
