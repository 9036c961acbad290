//! Alert lifecycle management.
//!
//! Every alert is a state machine with three phases, `Inactive -> Pending -> Firing`.
//! [`manager`] drives one machine per protocol and kind of anomaly, [`ip_manager`] one per
//! source address.
pub mod ip_laws;
pub mod ip_manager;
pub mod manager;
pub mod model;
pub mod port_scan_manager;
pub mod state;
pub mod synflood_manager;
pub mod view;
