//! Verified core of a blockchain indexing node: the orchestrator that decides
//! which subgraph deployments run, and the host side of the mapping sandbox.
pub mod asc_abi;
pub mod host_exports;
pub mod mapping;
pub mod provider;
pub mod registry;
pub mod service;
