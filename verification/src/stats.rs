//! A self-contained analysis of traffic snapshots: averages that know when they are ready,
//! classification by distance, and alerts without a life cycle.
pub mod alert;
pub mod analyze;
pub mod classifier;
pub mod compute;
pub mod ewma;
pub mod proto;
pub mod zscore;
