//! State persistence for a ledger: a key-value store with one generation of
//! rollback, the contract of a repository that records semantic commits on a
//! commit graph, and a repository held in memory.

pub mod hash;
pub mod pairs;
pub mod storage;
pub mod memory;
pub mod graph;
pub mod names;
pub mod backend;
pub mod raw;
pub mod order;
pub mod commit_graph;
pub mod memory_repository;
