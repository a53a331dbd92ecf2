//! A multi-chain IPFS pinning coordinator.
//!
//! On-chain events declare which content identifiers (CIDs) must be pinned,
//! by which provider, and until which block. This library holds the verified
//! core: the relational store of obligations, providers, pinned and failed
//! records, the ABI decoding of the six contract events, the chain-watcher
//! stepping rules, the three reconciliation cycles, and the read-API queries.
//! Network and database plumbing lives outside, handing the library plain
//! values and applying its decisions.

pub mod abi;
pub mod api;
pub mod config;
pub mod laws;
pub mod monitor;
pub mod proxy;
pub mod queries;
pub mod reconcile;
pub mod store;
pub mod strutil;
pub mod types;
pub mod watcher;

