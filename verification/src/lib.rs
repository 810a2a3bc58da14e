//! Runtime coordination layer for one stage of a distributed query plan:
//! a dispatcher registers stages, creates one stream per destination,
//! partitions executor output across those streams by a per-row scatter value,
//! and hands each stream's consumer end out exactly once.

pub mod channel;
pub mod dispatcher;
pub mod error;
pub mod federated;
pub mod keys;
pub mod scatter;
