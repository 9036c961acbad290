//! Traffic baselines: what rates each protocol usually has.
//!
//! A baseline is ready once it has enough samples, enough variance, and enough time behind
//! it; until then nothing is held against it.
pub mod estimator;
pub mod ewma;
pub mod proto;
