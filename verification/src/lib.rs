//! Loader core for confidential WebAssembly workloads: attestation results,
//! the resource bundle carried in a custom section, the read-only virtual
//! filesystem mounted from it, and the decisions taken before a workload runs.

pub mod archive;
pub mod attestation;
pub mod bundle;
pub mod cli;
pub mod config;
pub mod error;
pub mod leb;
pub mod path;
pub mod virtfs;
pub mod workload;
