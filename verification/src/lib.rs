//! Network traffic anomaly detection: packet classification, rate computation,
//! adaptive baselines, detectors, and the alert state machines that they drive.
pub mod alert;
pub mod alertmanager;
pub mod anomaly;
pub mod api;
pub mod baseline;
pub mod binary64;
pub mod common;
pub mod config;
pub mod metrics;
pub mod packet;
pub mod pipeline;
pub mod rate;
pub mod report;
pub mod stats;
pub mod sublist;
pub mod text;
pub mod time;
