//! Tracking of long-running operations: the records, the registry that owns
//! them, the bookkeeping of blocked waiters and the protocol surface built on
//! top of them.

pub mod coordinator;
pub mod decimal;
pub mod lifecycle;
pub mod listing;
pub mod longrunning;
pub mod registry;
pub mod rpc;
pub mod service;
pub mod text;
pub mod transport;
pub mod types;
pub mod wait;
