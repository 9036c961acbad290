//! The three detection pipelines: counters to rates, rates to signals, signals to alerts.
use vstd::prelude::*;

pub mod mix;
pub mod port_scan_runner;
pub mod runner;
pub mod synflood_runner;
pub mod view;

verus! {

/// What one tick of a pipeline tells the outside.
///
/// `transitions` are the alerts that fired or resolved on this tick. `heartbeats` are the
/// alerts that are firing and did not change: a receiver that lets alerts expire would
/// otherwise forget them.
#[derive(Debug)]
pub struct TickAlerts<Event, Alert> {
    pub transitions: Vec<Event>,
    pub heartbeats: Vec<Alert>,
}

/// Remembers `current` and returns what was remembered before. Without a `current` nothing
/// happens; the first one is only remembered.
pub fn prime_or_diff<T: Clone>(prev: &mut Option<T>, current: &Option<T>) -> (r: Option<T>)
    ensures
        match *current {
            Some(c) => r == *old(prev) && (*final(prev) matches Some(p) && cloned(c, p)),
            None => r is None && *final(prev) == *old(prev),
        },
{
    match current {
        Some(curr) => {
            let before = prev.take();
            *prev = Some(curr.clone());
            before
        },
        None => None,
    }
}

} // verus!
