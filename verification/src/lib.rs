//! The state a mesh proxy keeps about workloads, services and policies, and
//! the decisions it takes on that state.

pub mod address;
pub mod demand;
pub mod error;
pub mod export;
pub mod identity;
pub mod laws;
pub mod multicluster;
pub mod order;
pub mod picker;
pub mod policy;
pub mod random;
pub mod rbac;
pub mod resolve;
pub mod search;
pub mod service;
pub mod state;
pub mod text;
pub mod upstream;
pub mod workload;
