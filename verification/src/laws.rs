//! What the library keeps to, told of its data alone.
//!
//! The laws speak of the results that the contracts promise, and of the fields
//! of workloads, services and policies. They say what a result must be, and when
//! one is owed.

pub mod balancing;
pub mod clusters;
pub mod lookup;
pub mod policies;
pub mod resolution;
pub mod values;
