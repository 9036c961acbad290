//! Whether the process is alive and its data fresh.
use vstd::prelude::*;

use crate::api::ApiState;
use crate::binary64::Binary64;
use crate::time::Instant;

verus! {

/// Answer to a question for health.
#[derive(Debug)]
pub struct HealthResponse {
    /// Always `ok`: a process that answers is healthy.
    pub status: &'static str,
    pub uptime_secs: u64,
    pub baseline_warmed_up: bool,
    /// Time since the traffic counters were read; nothing before the first reading.
    pub last_stats_age_secs: Option<Binary64>,
}

/// How the process is at time `now`.
pub fn health(state: &ApiState, now: Instant) -> (r: HealthResponse)
    ensures
        r.status@ == "ok"@,
        r.uptime_secs == now.since(state.started_at).as_secs_spec(),
        r.baseline_warmed_up == state.warmed_up,
        r.last_stats_age_secs == (match state.last_stats_at {
            Some(t) => Some(now.since(t).as_secs_f64_spec()),
            None => None,
        }),
{
    HealthResponse {
        status: "ok",
        uptime_secs: now.duration_since(state.started_at).as_secs(),
        baseline_warmed_up: state.warmed_up,
        last_stats_age_secs: match state.last_stats_at {
            Some(t) => Some(now.duration_since(t).as_secs_f64()),
            None => None,
        },
    }
}

} // verus!
