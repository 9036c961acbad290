//! What is exported as metrics.
//!
//! No metric carries a source address: addresses are chosen by whoever sends the packets, and
//! each one would be a time series of its own.
use vstd::prelude::*;

use crate::alert::manager::{renders, tracked_slots};
use crate::alert::model::AlertKind;
use crate::alert::state::{AlertLifecycle, AlertState};
use crate::alert::view::AlertMetricsSnapshot;
use crate::anomaly::detector::{anomaly_view, compute_anomaly_view, AnomalyView};
use crate::anomaly::model::AnomalyLevel;
use crate::baseline::estimator::{BaselineState, EwmaEstimator, ProtoBaseline};
use crate::binary64::Binary64;
use crate::common::{proto_at, ProtoIndex};
use crate::rate::model::{PortScanIpBreadth, ProtoRate, SynIpRate};

verus! {

/// A time series, or one per combination of labels.
#[derive(Debug, Clone, Copy, PartialEq, Eq, Structural)]
pub enum Metric {
    TrafficPps,
    TrafficBps,
    TrafficMixPct,
    BaselinePpsMean,
    BaselinePpsStddev,
    BaselineBpsMean,
    BaselineBpsStddev,
    BaselineReady,
    AnomalyZScorePps,
    AnomalyZScoreBps,
    AnomalyLevel,
    AnomalyConfidence,
    AlertPhase,
    AlertConsecutiveCount,
    AlertBaselineFrozen,
    AlertEventsTotal,
    SynFloodTopOffenderPps,
    SynFloodActiveAlerts,
    SynFloodAlertEventsTotal,
    PortScanTopScannerPorts,
    PortScanActiveAlerts,
    PortScanAlertEventsTotal,
    AlertmanagerPushesTotal,
    AlertmanagerFailuresTotal,
    AlertmanagerDroppedTotal,
}

/// How a metric behaves over time.
#[derive(Debug, Clone, Copy, PartialEq, Eq, Structural)]
pub enum MetricType {
    Gauge,
    Counter,
}

/// What a metric counts.
#[derive(Debug, Clone, Copy, PartialEq, Eq, Structural)]
pub enum MetricUnit {
    Count,
    CountPerSecond,
    Bytes,
    Percent,
}

impl Metric {
    /// Name under which the metric is exported.
    pub open spec fn name_spec(self) -> Seq<char> {
        match self {
            Metric::TrafficPps => "xdp_traffic_pps"@,
            Metric::TrafficBps => "xdp_traffic_bps"@,
            Metric::TrafficMixPct => "xdp_traffic_mix_pct"@,
            Metric::BaselinePpsMean => "xdp_baseline_pps_mean"@,
            Metric::BaselinePpsStddev => "xdp_baseline_pps_stddev"@,
            Metric::BaselineBpsMean => "xdp_baseline_bps_mean"@,
            Metric::BaselineBpsStddev => "xdp_baseline_bps_stddev"@,
            Metric::BaselineReady => "xdp_baseline_ready"@,
            Metric::AnomalyZScorePps => "xdp_anomaly_z_score_pps"@,
            Metric::AnomalyZScoreBps => "xdp_anomaly_z_score_bps"@,
            Metric::AnomalyLevel => "xdp_anomaly_level"@,
            Metric::AnomalyConfidence => "xdp_anomaly_confidence"@,
            Metric::AlertPhase => "xdp_alert_phase"@,
            Metric::AlertConsecutiveCount => "xdp_alert_consecutive_count"@,
            Metric::AlertBaselineFrozen => "xdp_alert_baseline_frozen"@,
            Metric::AlertEventsTotal => "xdp_alert_events_total"@,
            Metric::SynFloodTopOffenderPps => "xdp_synflood_top_offender_pps"@,
            Metric::SynFloodActiveAlerts => "xdp_synflood_active_alerts"@,
            Metric::SynFloodAlertEventsTotal => "xdp_synflood_alert_events_total"@,
            Metric::PortScanTopScannerPorts => "xdp_portscan_top_scanner_ports"@,
            Metric::PortScanActiveAlerts => "xdp_portscan_active_alerts"@,
            Metric::PortScanAlertEventsTotal => "xdp_portscan_alert_events_total"@,
            Metric::AlertmanagerPushesTotal => "xdp_alertmanager_pushes_total"@,
            Metric::AlertmanagerFailuresTotal => "xdp_alertmanager_failures_total"@,
            Metric::AlertmanagerDroppedTotal => "xdp_alertmanager_dropped_total"@,
        }
    }

    /// Name under which the metric is exported.
    pub fn name(self) -> (r: &'static str)
        ensures
            r@ == self.name_spec(),
    {
        match self {
            Metric::TrafficPps => "xdp_traffic_pps",
            Metric::TrafficBps => "xdp_traffic_bps",
            Metric::TrafficMixPct => "xdp_traffic_mix_pct",
            Metric::BaselinePpsMean => "xdp_baseline_pps_mean",
            Metric::BaselinePpsStddev => "xdp_baseline_pps_stddev",
            Metric::BaselineBpsMean => "xdp_baseline_bps_mean",
            Metric::BaselineBpsStddev => "xdp_baseline_bps_stddev",
            Metric::BaselineReady => "xdp_baseline_ready",
            Metric::AnomalyZScorePps => "xdp_anomaly_z_score_pps",
            Metric::AnomalyZScoreBps => "xdp_anomaly_z_score_bps",
            Metric::AnomalyLevel => "xdp_anomaly_level",
            Metric::AnomalyConfidence => "xdp_anomaly_confidence",
            Metric::AlertPhase => "xdp_alert_phase",
            Metric::AlertConsecutiveCount => "xdp_alert_consecutive_count",
            Metric::AlertBaselineFrozen => "xdp_alert_baseline_frozen",
            Metric::AlertEventsTotal => "xdp_alert_events_total",
            Metric::SynFloodTopOffenderPps => "xdp_synflood_top_offender_pps",
            Metric::SynFloodActiveAlerts => "xdp_synflood_active_alerts",
            Metric::SynFloodAlertEventsTotal => "xdp_synflood_alert_events_total",
            Metric::PortScanTopScannerPorts => "xdp_portscan_top_scanner_ports",
            Metric::PortScanActiveAlerts => "xdp_portscan_active_alerts",
            Metric::PortScanAlertEventsTotal => "xdp_portscan_alert_events_total",
            Metric::AlertmanagerPushesTotal => "xdp_alertmanager_pushes_total",
            Metric::AlertmanagerFailuresTotal => "xdp_alertmanager_failures_total",
            Metric::AlertmanagerDroppedTotal => "xdp_alertmanager_dropped_total",
        }
    }
}

/// What a reader of a metric is told about it.
#[derive(Debug, Clone, Copy)]
pub struct MetricDescription {
    pub metric: Metric,
    pub metric_type: MetricType,
    pub unit: MetricUnit,
    pub help: &'static str,
}

/// The `i`th described metric, its type, its unit and its help text.
pub open spec fn description_at(i: int) -> (Metric, MetricType, MetricUnit, Seq<char>) {
    if i == 0 {
        (Metric::TrafficPps, MetricType::Gauge, MetricUnit::CountPerSecond, "Packets per second per protocol"@)
    } else if i == 1 {
        (Metric::TrafficBps, MetricType::Gauge, MetricUnit::Bytes, "Bytes per second per protocol"@)
    } else if i == 2 {
        (Metric::TrafficMixPct, MetricType::Gauge, MetricUnit::Percent, "% of total packets per protocol (5s window)"@)
    } else if i == 3 {
        (Metric::BaselinePpsMean, MetricType::Gauge, MetricUnit::CountPerSecond, "EWMA baseline PPS mean"@)
    } else if i == 4 {
        (Metric::BaselinePpsStddev, MetricType::Gauge, MetricUnit::CountPerSecond, "EWMA baseline PPS stddev"@)
    } else if i == 5 {
        (Metric::BaselineBpsMean, MetricType::Gauge, MetricUnit::Bytes, "EWMA baseline BPS mean"@)
    } else if i == 6 {
        (Metric::BaselineBpsStddev, MetricType::Gauge, MetricUnit::Bytes, "EWMA baseline BPS stddev"@)
    } else if i == 7 {
        (Metric::BaselineReady, MetricType::Gauge, MetricUnit::Count, "1 if baseline ready, 0 if warming"@)
    } else if i == 8 {
        (Metric::AnomalyZScorePps, MetricType::Gauge, MetricUnit::Count, "Z-score for PPS (0 if warming)"@)
    } else if i == 9 {
        (Metric::AnomalyZScoreBps, MetricType::Gauge, MetricUnit::Count, "Z-score for BPS (0 if warming)"@)
    } else if i == 10 {
        (Metric::AnomalyLevel, MetricType::Gauge, MetricUnit::Count, "0=Normal 1=Suspicious 2=Severe"@)
    } else if i == 11 {
        (Metric::AnomalyConfidence, MetricType::Gauge, MetricUnit::Count, "Anomaly confidence 0.0-1.0"@)
    } else if i == 12 {
        (Metric::AlertPhase, MetricType::Gauge, MetricUnit::Count, "0=Inactive 1=Pending 2=Firing per proto+kind"@)
    } else if i == 13 {
        (Metric::AlertConsecutiveCount, MetricType::Gauge, MetricUnit::Count, "Consecutive anomalous samples per proto+kind"@)
    } else if i == 14 {
        (Metric::AlertBaselineFrozen, MetricType::Gauge, MetricUnit::Count, "1 if EWMA baseline updates are frozen per protocol"@)
    } else if i == 15 {
        (Metric::AlertEventsTotal, MetricType::Counter, MetricUnit::Count, "Alert lifecycle events (fired|resolved)"@)
    } else if i == 16 {
        (Metric::SynFloodTopOffenderPps, MetricType::Gauge, MetricUnit::CountPerSecond, "SYN pps of the single hottest source IP this tick; see /synflood for the bounded top-N breakdown"@)
    } else if i == 17 {
        (Metric::SynFloodActiveAlerts, MetricType::Gauge, MetricUnit::Count, "Number of source IPs currently in a Pending/Firing SYN-flood alert state"@)
    } else {
        (Metric::SynFloodAlertEventsTotal, MetricType::Counter, MetricUnit::Count, "SYN-flood alert lifecycle events (fired|resolved), aggregate only"@)
    }
}

/// Whether `d` says what is to be said of the `i`th described metric.
pub open spec fn describes(d: MetricDescription, i: int) -> bool {
    (d.metric, d.metric_type, d.unit, d.help@) == description_at(i)
}

fn describe(metric: Metric, metric_type: MetricType, unit: MetricUnit, help: &'static str) -> (r:
    MetricDescription)
    ensures
        r == (MetricDescription { metric, metric_type, unit, help }),
{
    MetricDescription { metric, metric_type, unit, help }
}

/// Types, units and help texts, in the order in which they are registered.
pub fn register_descriptions() -> (r: Vec<MetricDescription>)
    ensures
        r@.len() == 19,
        forall|i: int| 0 <= i < r@.len() ==> describes(#[trigger] r@[i], i),
{
    let mut r: Vec<MetricDescription> = Vec::new();
    r.push(
        describe(
            Metric::TrafficPps,
            MetricType::Gauge,
            MetricUnit::CountPerSecond,
            "Packets per second per protocol",
        ),
    );
    r.push(
        describe(
            Metric::TrafficBps,
            MetricType::Gauge,
            MetricUnit::Bytes,
            "Bytes per second per protocol",
        ),
    );
    r.push(
        describe(
            Metric::TrafficMixPct,
            MetricType::Gauge,
            MetricUnit::Percent,
            "% of total packets per protocol (5s window)",
        ),
    );
    r.push(
        describe(
            Metric::BaselinePpsMean,
            MetricType::Gauge,
            MetricUnit::CountPerSecond,
            "EWMA baseline PPS mean",
        ),
    );
    r.push(
        describe(
            Metric::BaselinePpsStddev,
            MetricType::Gauge,
            MetricUnit::CountPerSecond,
            "EWMA baseline PPS stddev",
        ),
    );
    r.push(
        describe(
            Metric::BaselineBpsMean,
            MetricType::Gauge,
            MetricUnit::Bytes,
            "EWMA baseline BPS mean",
        ),
    );
    r.push(
        describe(
            Metric::BaselineBpsStddev,
            MetricType::Gauge,
            MetricUnit::Bytes,
            "EWMA baseline BPS stddev",
        ),
    );
    r.push(
        describe(
            Metric::BaselineReady,
            MetricType::Gauge,
            MetricUnit::Count,
            "1 if baseline ready, 0 if warming",
        ),
    );
    r.push(
        describe(
            Metric::AnomalyZScorePps,
            MetricType::Gauge,
            MetricUnit::Count,
            "Z-score for PPS (0 if warming)",
        ),
    );
    r.push(
        describe(
            Metric::AnomalyZScoreBps,
            MetricType::Gauge,
            MetricUnit::Count,
            "Z-score for BPS (0 if warming)",
        ),
    );
    r.push(
        describe(
            Metric::AnomalyLevel,
            MetricType::Gauge,
            MetricUnit::Count,
            "0=Normal 1=Suspicious 2=Severe",
        ),
    );
    r.push(
        describe(
            Metric::AnomalyConfidence,
            MetricType::Gauge,
            MetricUnit::Count,
            "Anomaly confidence 0.0-1.0",
        ),
    );
    r.push(
        describe(
            Metric::AlertPhase,
            MetricType::Gauge,
            MetricUnit::Count,
            "0=Inactive 1=Pending 2=Firing per proto+kind",
        ),
    );
    r.push(
        describe(
            Metric::AlertConsecutiveCount,
            MetricType::Gauge,
            MetricUnit::Count,
            "Consecutive anomalous samples per proto+kind",
        ),
    );
    r.push(
        describe(
            Metric::AlertBaselineFrozen,
            MetricType::Gauge,
            MetricUnit::Count,
            "1 if EWMA baseline updates are frozen per protocol",
        ),
    );
    r.push(
        describe(
            Metric::AlertEventsTotal,
            MetricType::Counter,
            MetricUnit::Count,
            "Alert lifecycle events (fired|resolved)",
        ),
    );
    r.push(
        describe(
            Metric::SynFloodTopOffenderPps,
            MetricType::Gauge,
            MetricUnit::CountPerSecond,
            "SYN pps of the single hottest source IP this tick; see /synflood for the bounded top-N breakdown",
        ),
    );
    r.push(
        describe(
            Metric::SynFloodActiveAlerts,
            MetricType::Gauge,
            MetricUnit::Count,
            "Number of source IPs currently in a Pending/Firing SYN-flood alert state",
        ),
    );
    r.push(
        describe(
            Metric::SynFloodAlertEventsTotal,
            MetricType::Counter,
            MetricUnit::Count,
            "SYN-flood alert lifecycle events (fired|resolved), aggregate only",
        ),
    );
    r
}

/// A change of a metric.
#[derive(Debug, Clone, Copy)]
pub enum MetricChange {
    Assign { value: Binary64 },
    Increment { by: u64 },
}

/// A change of the time series of a metric that has these labels.
#[derive(Debug, Clone, Copy)]
pub struct MetricOp {
    pub metric: Metric,
    pub proto: Option<ProtoIndex>,
    pub kind: Option<AlertKind>,
    pub lifecycle: Option<AlertLifecycle>,
    pub change: MetricChange,
}

/// Sets a gauge without labels.
pub open spec fn set_op(metric: Metric, value: Binary64) -> MetricOp {
    MetricOp {
        metric,
        proto: None,
        kind: None,
        lifecycle: None,
        change: MetricChange::Assign { value },
    }
}

/// Sets a gauge of one protocol.
pub open spec fn proto_op(metric: Metric, proto: ProtoIndex, value: Binary64) -> MetricOp {
    MetricOp { proto: Some(proto), ..set_op(metric, value) }
}

/// Sets a gauge of one protocol and kind of alert.
pub open spec fn kind_op(
    metric: Metric,
    proto: ProtoIndex,
    kind: AlertKind,
    value: Binary64,
) -> MetricOp {
    MetricOp { kind: Some(kind), ..proto_op(metric, proto, value) }
}

/// Counts one more event.
pub open spec fn event_op(metric: Metric, lifecycle: AlertLifecycle) -> MetricOp {
    MetricOp {
        metric,
        proto: None,
        kind: None,
        lifecycle: Some(lifecycle),
        change: MetricChange::Increment { by: 1 },
    }
}

/// The shares of all protocols.
pub open spec fn mix_ops(mix: Seq<(ProtoIndex, Binary64)>) -> Seq<MetricOp> {
    Seq::new(mix.len(), |i: int| proto_op(Metric::TrafficMixPct, mix[i].0, mix[i].1))
}

/// The rates of all protocols: packets, then bytes.
pub open spec fn rate_ops(rates: Seq<ProtoRate>) -> Seq<MetricOp>
    decreases rates.len(),
{
    if rates.len() == 0 {
        Seq::empty()
    } else {
        let r = rates.last();
        rate_ops(rates.drop_last()) + seq![
            proto_op(Metric::TrafficPps, r.proto, r.pps),
            proto_op(Metric::TrafficBps, r.proto, r.bps),
        ]
    }
}

/// The baseline of one protocol.
pub open spec fn one_baseline_ops(proto: ProtoIndex, state: BaselineState) -> Seq<MetricOp> {
    match state {
        BaselineState::Ready { baseline } => seq![
            proto_op(Metric::BaselineReady, proto, Binary64::one()),
            proto_op(Metric::BaselinePpsMean, proto, baseline.pps.mean),
            proto_op(Metric::BaselinePpsStddev, proto, baseline.pps.stddev),
            proto_op(Metric::BaselineBpsMean, proto, baseline.bps.mean),
            proto_op(Metric::BaselineBpsStddev, proto, baseline.bps.stddev),
        ],
        BaselineState::Warming => seq![
            proto_op(Metric::BaselineReady, proto, Binary64::zero()),
        ],
    }
}

/// The baselines of the first `n` protocols.
pub open spec fn baseline_ops(estimator: EwmaEstimator, n: nat) -> Seq<MetricOp>
    decreases n,
{
    if n == 0 {
        Seq::empty()
    } else {
        let proto = proto_at(n - 1);
        baseline_ops(estimator, (n - 1) as nat) + one_baseline_ops(
            proto,
            estimator.snapshot_spec(proto),
        )
    }
}

/// The number of a level: 0 normal, 1 suspicious, 2 severe.
pub open spec fn level_value_spec(level: AnomalyLevel) -> Binary64 {
    match level {
        AnomalyLevel::Normal => Binary64::zero(),
        AnomalyLevel::Suspicious => Binary64::one(),
        AnomalyLevel::Severe => Binary64::two(),
    }
}

fn level_value(level: AnomalyLevel) -> (r: Binary64)
    ensures
        r == level_value_spec(level),
{
    match level {
        AnomalyLevel::Normal => Binary64::zero(),
        AnomalyLevel::Suspicious => Binary64::one(),
        AnomalyLevel::Severe => Binary64::two(),
    }
}

/// How one protocol's rate stands to its baseline.
pub open spec fn view_ops(proto: ProtoIndex, view: AnomalyView) -> Seq<MetricOp> {
    seq![
        proto_op(Metric::AnomalyZScorePps, proto, view.z_pps),
        proto_op(Metric::AnomalyZScoreBps, proto, view.z_bps),
        proto_op(Metric::AnomalyLevel, proto, level_value_spec(view.level)),
        proto_op(Metric::AnomalyConfidence, proto, view.confidence),
    ]
}

/// How all rates stand to their baselines.
pub open spec fn anomaly_ops(rates: Seq<ProtoRate>, estimator: EwmaEstimator) -> Seq<MetricOp>
    decreases rates.len(),
{
    if rates.len() == 0 {
        Seq::empty()
    } else {
        let r = rates.last();
        anomaly_ops(rates.drop_last(), estimator) + view_ops(
            r.proto,
            anomaly_view(estimator.snapshot_spec(r.proto), r.pps, r.bps),
        )
    }
}

/// Which of the first `n` protocols have a frozen baseline.
pub open spec fn frozen_ops(frozen: Seq<ProtoIndex>, n: nat) -> Seq<MetricOp>
    decreases n,
{
    if n == 0 {
        Seq::empty()
    } else {
        let proto = proto_at(n - 1);
        frozen_ops(frozen, (n - 1) as nat).push(
            proto_op(
                Metric::AlertBaselineFrozen,
                proto,
                if frozen.contains(proto) {
                    Binary64::one()
                } else {
                    Binary64::zero()
                },
            ),
        )
    }
}

/// The phase and count of one alert.
pub open spec fn slot_ops(
    proto: ProtoIndex,
    kind: AlertKind,
    phase_value: u8,
    consecutive_count: u32,
) -> Seq<MetricOp> {
    seq![
        kind_op(
            Metric::AlertPhase,
            proto,
            kind,
            Binary64::from_u64_spec(phase_value as u64),
        ),
        kind_op(
            Metric::AlertConsecutiveCount,
            proto,
            kind,
            Binary64::from_u64_spec(consecutive_count as u64),
        ),
    ]
}

/// The phases and counts of all tracked alerts.
pub open spec fn snap_ops(snaps: Seq<AlertMetricsSnapshot>) -> Seq<MetricOp>
    decreases snaps.len(),
{
    if snaps.len() == 0 {
        Seq::empty()
    } else {
        let s = snaps.last();
        snap_ops(snaps.drop_last()) + slot_ops(s.proto, s.kind, s.phase_value, s.consecutive_count)
    }
}

/// The changes that the handle has been given and that have not been exported yet.
#[derive(Debug)]
pub struct MetricsHandle {
    ops: Vec<MetricOp>,
}

impl MetricsHandle {
    /// The changes not exported yet, in order.
    pub closed spec fn ops(&self) -> Seq<MetricOp> {
        self.ops@
    }

    /// A handle with nothing to export.
    pub fn new() -> (r: Self)
        ensures
            r.ops() == Seq::<MetricOp>::empty(),
    {
        MetricsHandle { ops: Vec::new() }
    }

    /// Hands the changes out for export.
    pub fn take_ops(&mut self) -> (r: Vec<MetricOp>)
        ensures
            r@ == old(self).ops(),
            final(self).ops() == Seq::<MetricOp>::empty(),
    {
        let mut r: Vec<MetricOp> = Vec::new();
        std::mem::swap(&mut r, &mut self.ops);
        r
    }

    fn set(&mut self, metric: Metric, value: Binary64)
        ensures
            final(self).ops() == old(self).ops().push(set_op(metric, value)),
    {
        self.ops.push(
            MetricOp {
                metric,
                proto: None,
                kind: None,
                lifecycle: None,
                change: MetricChange::Assign { value },
            },
        );
    }

    fn set_proto(&mut self, metric: Metric, proto: ProtoIndex, value: Binary64)
        ensures
            final(self).ops() == old(self).ops().push(proto_op(metric, proto, value)),
    {
        self.ops.push(
            MetricOp {
                metric,
                proto: Some(proto),
                kind: None,
                lifecycle: None,
                change: MetricChange::Assign { value },
            },
        );
    }

    fn set_kind(&mut self, metric: Metric, proto: ProtoIndex, kind: AlertKind, value: Binary64)
        ensures
            final(self).ops() == old(self).ops().push(kind_op(metric, proto, kind, value)),
    {
        self.ops.push(
            MetricOp {
                metric,
                proto: Some(proto),
                kind: Some(kind),
                lifecycle: None,
                change: MetricChange::Assign { value },
            },
        );
    }

    fn count_event(&mut self, metric: Metric, lifecycle: AlertLifecycle)
        ensures
            final(self).ops() == old(self).ops().push(event_op(metric, lifecycle)),
    {
        self.ops.push(
            MetricOp {
                metric,
                proto: None,
                kind: None,
                lifecycle: Some(lifecycle),
                change: MetricChange::Increment { by: 1 },
            },
        );
    }

    /// Exports each protocol's share of the packets.
    pub fn update_mix(&mut self, mix_pcts: &[(ProtoIndex, Binary64)])
        ensures
            final(self).ops() == old(self).ops() + mix_ops(mix_pcts@),
    {
        let ghost before = self.ops@;
        let mut i: usize = 0;
        while i < mix_pcts.len()
            invariant
                i <= mix_pcts@.len(),
                self.ops@ =~= before + mix_ops(mix_pcts@).take(i as int),
            decreases mix_pcts@.len() - i,
        {
            let (proto, pct) = mix_pcts[i];
            self.set_proto(Metric::TrafficMixPct, proto, pct);
            i = i + 1;
        }
        proof {
            assert(mix_ops(mix_pcts@).take(mix_pcts@.len() as int) =~= mix_ops(mix_pcts@));
        }
    }

    /// Exports the rates of all protocols.
    pub fn update_rates(&mut self, rates: &[ProtoRate])
        ensures
            final(self).ops() == old(self).ops() + rate_ops(rates@),
    {
        let ghost before = self.ops@;
        let mut i: usize = 0;
        proof {
            assert(rates@.take(0).len() == 0);
            assert(before + Seq::<MetricOp>::empty() =~= before);
        }
        while i < rates.len()
            invariant
                i <= rates@.len(),
                self.ops@ == before + rate_ops(rates@.take(i as int)),
            decreases rates@.len() - i,
        {
            let r = rates[i];
            self.set_proto(Metric::TrafficPps, r.proto, r.pps);
            self.set_proto(Metric::TrafficBps, r.proto, r.bps);
            proof {
                let t = rates@.take(i + 1);
                assert(t.drop_last() =~= rates@.take(i as int));
                assert(t.last() == r);
                assert(self.ops@ =~= before + rate_ops(t));
            }
            i = i + 1;
        }
        proof {
            assert(rates@.take(rates@.len() as int) =~= rates@);
        }
    }

    /// Exports the baselines of all protocols, as far as they are ready.
    pub fn update_baseline(&mut self, estimator: &EwmaEstimator)
        ensures
            final(self).ops() == old(self).ops() + baseline_ops(*estimator, 5),
    {
        let ghost before = self.ops@;
        let mut i: usize = 0;
        proof {
            assert(before + Seq::<MetricOp>::empty() =~= before);
        }
        while i < 5
            invariant
                i <= 5,
                self.ops@ == before + baseline_ops(*estimator, i as nat),
            decreases 5 - i,
        {
            match ProtoIndex::from_index(i) {
                Some(proto) => {
                    match estimator.snapshot(proto) {
                        BaselineState::Ready { baseline } => {
                            self.set_proto(Metric::BaselineReady, proto, Binary64::one());
                            self.set_proto(Metric::BaselinePpsMean, proto, baseline.pps.mean);
                            self.set_proto(Metric::BaselinePpsStddev, proto, baseline.pps.stddev);
                            self.set_proto(Metric::BaselineBpsMean, proto, baseline.bps.mean);
                            self.set_proto(Metric::BaselineBpsStddev, proto, baseline.bps.stddev);
                        },
                        BaselineState::Warming => {
                            self.set_proto(Metric::BaselineReady, proto, Binary64::zero());
                        },
                    }
                },
                None => {},
            }
            proof {
                assert(self.ops@ =~= before + baseline_ops(*estimator, (i + 1) as nat));
            }
            i = i + 1;
        }
    }

    /// Exports how all rates stand to their baselines.
    pub fn update_anomaly(&mut self, rates: &[ProtoRate], estimator: &EwmaEstimator)
        ensures
            final(self).ops() == old(self).ops() + anomaly_ops(rates@, *estimator),
    {
        let ghost before = self.ops@;
        let mut i: usize = 0;
        proof {
            assert(rates@.take(0).len() == 0);
            assert(before + Seq::<MetricOp>::empty() =~= before);
        }
        while i < rates.len()
            invariant
                i <= rates@.len(),
                self.ops@ == before + anomaly_ops(rates@.take(i as int), *estimator),
            decreases rates@.len() - i,
        {
            let r = rates[i];
            let view = compute_anomaly_view(&estimator.snapshot(r.proto), r.pps, r.bps);
            self.set_proto(Metric::AnomalyZScorePps, r.proto, view.z_pps);
            self.set_proto(Metric::AnomalyZScoreBps, r.proto, view.z_bps);
            self.set_proto(Metric::AnomalyLevel, r.proto, level_value(view.level));
            self.set_proto(Metric::AnomalyConfidence, r.proto, view.confidence);
            proof {
                let t = rates@.take(i + 1);
                assert(t.drop_last() =~= rates@.take(i as int));
                assert(t.last() == r);
                assert(self.ops@ =~= before + anomaly_ops(t, *estimator));
            }
            i = i + 1;
        }
        proof {
            assert(rates@.take(rates@.len() as int) =~= rates@);
        }
    }

    /// Exports which baselines are frozen, and the phases and counts of all tracked alerts.
    pub fn update_alerts(
        &mut self,
        snaps: &[AlertMetricsSnapshot],
        frozen_protos: &[ProtoIndex],
    )
        ensures
            final(self).ops() == old(self).ops() + (frozen_ops(frozen_protos@, 5) + snap_ops(
                snaps@,
            )),
    {
        let ghost before = self.ops@;
        let mut i: usize = 0;
        proof {
            assert(before + Seq::<MetricOp>::empty() =~= before);
        }
        while i < 5
            invariant
                i <= 5,
                self.ops@ == before + frozen_ops(frozen_protos@, i as nat),
            decreases 5 - i,
        {
            match ProtoIndex::from_index(i) {
                Some(proto) => {
                    let value: Binary64 = if contains_proto(frozen_protos, proto) {
                        Binary64::one()
                    } else {
                        Binary64::zero()
                    };
                    self.set_proto(Metric::AlertBaselineFrozen, proto, value);
                },
                None => {},
            }
            proof {
                assert(self.ops@ =~= before + frozen_ops(frozen_protos@, (i + 1) as nat));
            }
            i = i + 1;
        }
        let ghost middle = self.ops@;
        let mut j: usize = 0;
        proof {
            assert(snaps@.take(0).len() == 0);
            assert(middle + Seq::<MetricOp>::empty() =~= middle);
        }
        while j < snaps.len()
            invariant
                j <= snaps@.len(),
                self.ops@ == middle + snap_ops(snaps@.take(j as int)),
            decreases snaps@.len() - j,
        {
            let s = &snaps[j];
            self.set_kind(
                Metric::AlertPhase,
                s.proto,
                s.kind,
                Binary64::from_u64(s.phase_value as u64),
            );
            self.set_kind(
                Metric::AlertConsecutiveCount,
                s.proto,
                s.kind,
                Binary64::from_u64(s.consecutive_count as u64),
            );
            proof {
                let t = snaps@.take(j + 1);
                assert(t.drop_last() =~= snaps@.take(j as int));
                assert(t.last() == snaps@[j as int]);
                assert(self.ops@ =~= middle + snap_ops(t));
            }
            j = j + 1;
        }
        proof {
            assert(snaps@.take(snaps@.len() as int) =~= snaps@);
            assert(self.ops@ =~= before + (frozen_ops(frozen_protos@, 5) + snap_ops(snaps@)));
        }
    }

    /// Counts an alert that fired or resolved.
    pub fn record_alert_event(
        &mut self,
        proto: ProtoIndex,
        kind: AlertKind,
        lifecycle: AlertLifecycle,
    )
        ensures
            final(self).ops() == old(self).ops().push(
                MetricOp {
                    proto: Some(proto),
                    kind: Some(kind),
                    ..event_op(Metric::AlertEventsTotal, lifecycle)
                },
            ),
    {
        self.ops.push(
            MetricOp {
                metric: Metric::AlertEventsTotal,
                proto: Some(proto),
                kind: Some(kind),
                lifecycle: Some(lifecycle),
                change: MetricChange::Increment { by: 1 },
            },
        );
    }

    /// Exports the rate of the fastest sender of SYN packets, 0 without one, and the number
    /// of source addresses whose SYN-flood alert is pending or firing.
    pub fn update_synflood(&mut self, top_n: &[SynIpRate], active_alerts: usize)
        ensures
            final(self).ops() == old(self).ops() + synflood_ops(top_n@, active_alerts),
    {
        let top_pps: Binary64 = if top_n.len() > 0 {
            top_n[0].pps
        } else {
            Binary64::zero()
        };
        let ghost before = self.ops@;
        self.set(Metric::SynFloodTopOffenderPps, top_pps);
        self.set(Metric::SynFloodActiveAlerts, Binary64::from_u64(active_alerts as u64));
        proof {
            assert(self.ops@ =~= before + synflood_ops(top_n@, active_alerts));
        }
    }

    /// Counts a SYN-flood alert that fired or resolved.
    pub fn record_synflood_event(&mut self, lifecycle: AlertLifecycle)
        ensures
            final(self).ops() == old(self).ops().push(
                event_op(Metric::SynFloodAlertEventsTotal, lifecycle),
            ),
    {
        self.count_event(Metric::SynFloodAlertEventsTotal, lifecycle);
    }

    /// Exports the number of ports of the broadest scanner, 0 without one, and the number of
    /// tracked port-scan alerts.
    pub fn update_port_scan(&mut self, top_n: &[PortScanIpBreadth], active_alerts: usize)
        ensures
            final(self).ops() == old(self).ops() + port_scan_ops(top_n@, active_alerts),
    {
        let top_ports: u64 = if top_n.len() > 0 {
            top_n[0].distinct_ports as u64
        } else {
            0
        };
        let ghost before = self.ops@;
        self.set(Metric::PortScanTopScannerPorts, Binary64::from_u64(top_ports));
        self.set(Metric::PortScanActiveAlerts, Binary64::from_u64(active_alerts as u64));
        proof {
            assert(self.ops@ =~= before + port_scan_ops(top_n@, active_alerts));
        }
    }

    /// Counts a port-scan alert that fired or resolved.
    pub fn record_port_scan_event(&mut self, lifecycle: AlertLifecycle)
        ensures
            final(self).ops() == old(self).ops().push(
                event_op(Metric::PortScanAlertEventsTotal, lifecycle),
            ),
    {
        self.count_event(Metric::PortScanAlertEventsTotal, lifecycle);
    }

    /// Counts a batch of alerts that was delivered, or given up.
    pub fn record_alertmanager_push(&mut self, delivered: bool)
        ensures
            final(self).ops() == old(self).ops().push(
                count_op(
                    if delivered {
                        Metric::AlertmanagerPushesTotal
                    } else {
                        Metric::AlertmanagerFailuresTotal
                    },
                ),
            ),
    {
        let metric = if delivered {
            Metric::AlertmanagerPushesTotal
        } else {
            Metric::AlertmanagerFailuresTotal
        };
        self.ops.push(
            MetricOp {
                metric,
                proto: None,
                kind: None,
                lifecycle: None,
                change: MetricChange::Increment { by: 1 },
            },
        );
    }

    /// Counts an alert that was dropped because the queue to the dispatcher was full.
    pub fn record_alertmanager_dropped(&mut self)
        ensures
            final(self).ops() == old(self).ops().push(count_op(Metric::AlertmanagerDroppedTotal)),
    {
        self.ops.push(
            MetricOp {
                metric: Metric::AlertmanagerDroppedTotal,
                proto: None,
                kind: None,
                lifecycle: None,
                change: MetricChange::Increment { by: 1 },
            },
        );
    }
}

/// Counts one more, without labels.
pub open spec fn count_op(metric: Metric) -> MetricOp {
    MetricOp {
        metric,
        proto: None,
        kind: None,
        lifecycle: None,
        change: MetricChange::Increment { by: 1 },
    }
}

/// The state of SYN-flood detection.
pub open spec fn synflood_ops(top_n: Seq<SynIpRate>, active_alerts: usize) -> Seq<MetricOp> {
    seq![
        set_op(
            Metric::SynFloodTopOffenderPps,
            if top_n.len() > 0 {
                top_n[0].pps
            } else {
                Binary64::zero()
            },
        ),
        set_op(Metric::SynFloodActiveAlerts, Binary64::from_u64_spec(active_alerts as u64)),
    ]
}

/// The state of port-scan detection.
pub open spec fn port_scan_ops(
    top_n: Seq<PortScanIpBreadth>,
    active_alerts: usize,
) -> Seq<MetricOp> {
    seq![
        set_op(
            Metric::PortScanTopScannerPorts,
            Binary64::from_u64_spec(
                if top_n.len() > 0 {
                    top_n[0].distinct_ports as u64
                } else {
                    0
                },
            ),
        ),
        set_op(Metric::PortScanActiveAlerts, Binary64::from_u64_spec(active_alerts as u64)),
    ]
}

/// Whether `protos` holds `proto`.
pub fn contains_proto(protos: &[ProtoIndex], proto: ProtoIndex) -> (r: bool)
    ensures
        r == protos@.contains(proto),
{
    let mut i: usize = 0;
    while i < protos.len()
        invariant
            i <= protos@.len(),
            forall|k: int| 0 <= k < i ==> #[trigger] protos@[k] != proto,
        decreases protos@.len() - i,
    {
        if protos[i] == proto {
            return true;
        }
        i = i + 1;
    }
    false
}

/// The phases and counts of the tracked alerts among the first `n`, by their states.
pub open spec fn state_ops(states: Seq<Option<AlertState>>, n: nat) -> Seq<MetricOp>
    decreases n,
{
    if n == 0 {
        Seq::empty()
    } else {
        let before = state_ops(states, (n - 1) as nat);
        let key = crate::alert::manager::key_at(n - 1);
        match states[n - 1] {
            Some(s) => before + slot_ops(
                key.proto,
                key.kind,
                s.phase_value_spec(),
                s.consecutive_count,
            ),
            None => before,
        }
    }
}

/// Snapshots that render the tracked states export those states.
pub proof fn lemma_snap_ops(
    snaps: Seq<AlertMetricsSnapshot>,
    states: Seq<Option<AlertState>>,
    n: nat,
)
    requires
        n <= states.len(),
        snaps.len() == tracked_slots(states, n).len(),
        forall|j: int|
            0 <= j < snaps.len() ==> renders(
                #[trigger] snaps[j],
                tracked_slots(states, n)[j],
                states[tracked_slots(states, n)[j]]->0,
            ),
    ensures
        snap_ops(snaps) == state_ops(states, n),
    decreases n,
{
    if n > 0 {
        let m = (n - 1) as nat;
        let before = tracked_slots(states, m);
        let all = tracked_slots(states, n);
        if states[m as int] is Some {
            let rest = snaps.drop_last();
            assert forall|j: int| 0 <= j < rest.len() implies renders(
                #[trigger] rest[j],
                before[j],
                states[before[j]]->0,
            ) by {
                assert(all[j] == before[j]);
                assert(renders(snaps[j], all[j], states[all[j]]->0));
            }
            lemma_snap_ops(rest, states, m);
            let j = snaps.len() - 1;
            assert(all[j] == m);
            assert(renders(snaps[j], all[j], states[all[j]]->0));
        } else {
            lemma_snap_ops(snaps, states, m);
        }
    }
}

/// Whether `op` sets the gauge `metric` of `proto` to `value`, with no other label.
pub open spec fn sets(op: MetricOp, metric: Metric, proto: ProtoIndex, value: Binary64) -> bool {
    &&& op.metric == metric
    &&& op.proto == Some(proto)
    &&& op.kind is None
    &&& op.lifecycle is None
    &&& op.change == (MetricChange::Assign { value })
}

/// Rates are exported under the protocol they are of: the packet rate of the `i`th, then its
/// byte rate.
pub proof fn law_rates_are_exported(rates: Seq<ProtoRate>, i: int)
    requires
        0 <= i < rates.len(),
    ensures
        rate_ops(rates).len() == 2 * rates.len(),
        sets(rate_ops(rates)[2 * i], Metric::TrafficPps, rates[i].proto, rates[i].pps),
        sets(rate_ops(rates)[2 * i + 1], Metric::TrafficBps, rates[i].proto, rates[i].bps),
    decreases rates.len(),
{
    let rest = rates.drop_last();
    lemma_rate_ops_len(rest);
    if i < rest.len() {
        law_rates_are_exported(rest, i);
    }
}

proof fn lemma_rate_ops_len(rates: Seq<ProtoRate>)
    ensures
        rate_ops(rates).len() == 2 * rates.len(),
    decreases rates.len(),
{
    if rates.len() > 0 {
        lemma_rate_ops_len(rates.drop_last());
    }
}

/// Shares are exported under the protocol they are of.
pub proof fn law_shares_are_exported(mix: Seq<(ProtoIndex, Binary64)>, i: int)
    requires
        0 <= i < mix.len(),
    ensures
        mix_ops(mix).len() == mix.len(),
        sets(mix_ops(mix)[i], Metric::TrafficMixPct, mix[i].0, mix[i].1),
{
}

/// A baseline that is ready is exported as ready, with its means and deviations; one that is
/// not, as not ready and without them.
pub proof fn law_baseline_is_exported(proto: ProtoIndex, baseline: ProtoBaseline)
    ensures
        ({
            let ready = one_baseline_ops(proto, BaselineState::Ready { baseline });
            let warming = one_baseline_ops(proto, BaselineState::Warming);
            &&& ready.len() == 5
            &&& sets(ready[0], Metric::BaselineReady, proto, Binary64::one())
            &&& sets(ready[1], Metric::BaselinePpsMean, proto, baseline.pps.mean)
            &&& sets(ready[2], Metric::BaselinePpsStddev, proto, baseline.pps.stddev)
            &&& sets(ready[3], Metric::BaselineBpsMean, proto, baseline.bps.mean)
            &&& sets(ready[4], Metric::BaselineBpsStddev, proto, baseline.bps.stddev)
            &&& warming.len() == 1
            &&& sets(warming[0], Metric::BaselineReady, proto, Binary64::zero())
        }),
{
}

/// The baselines of all protocols are exported, each as it stands, in the order of the
/// buckets: that of the `i`th starts at the position that is returned.
pub proof fn law_every_baseline_is_exported(estimator: EwmaEstimator, n: nat, i: int) -> (at: int)
    requires
        0 <= i < n <= 5,
    ensures
        ({
            let ops = baseline_ops(estimator, n);
            let part = one_baseline_ops(proto_at(i), estimator.snapshot_spec(proto_at(i)));
            &&& 0 <= at && at + part.len() <= ops.len()
            &&& forall|k: int| 0 <= k < part.len() ==> #[trigger] part[k] == ops[at + k]
        }),
    decreases n,
{
    let m = (n - 1) as nat;
    if i < m {
        law_every_baseline_is_exported(estimator, m, i)
    } else {
        baseline_ops(estimator, m).len() as int
    }
}

/// How a rate stands to its baseline is exported under its protocol: both distances, the level
/// as a number from 0 for normal to 2 for severe, and the confidence. Those of the `i`th rate
/// start at `4 * i`.
pub proof fn law_anomalies_are_exported(
    rates: Seq<ProtoRate>,
    estimator: EwmaEstimator,
    i: int,
)
    requires
        0 <= i < rates.len(),
    ensures
        ({
            let ops = anomaly_ops(rates, estimator);
            let proto = rates[i].proto;
            let view = anomaly_view(estimator.snapshot_spec(proto), rates[i].pps, rates[i].bps);
            &&& ops.len() == 4 * rates.len()
            &&& sets(ops[4 * i], Metric::AnomalyZScorePps, proto, view.z_pps)
            &&& sets(ops[4 * i + 1], Metric::AnomalyZScoreBps, proto, view.z_bps)
            &&& sets(
                ops[4 * i + 2],
                Metric::AnomalyLevel,
                proto,
                match view.level {
                    AnomalyLevel::Normal => Binary64::zero(),
                    AnomalyLevel::Suspicious => Binary64::one(),
                    AnomalyLevel::Severe => Binary64::two(),
                },
            )
            &&& sets(ops[4 * i + 3], Metric::AnomalyConfidence, proto, view.confidence)
        }),
    decreases rates.len(),
{
    let rest = rates.drop_last();
    lemma_anomaly_ops_len(rest, estimator);
    if i < rest.len() {
        law_anomalies_are_exported(rest, estimator, i);
    }
}

proof fn lemma_anomaly_ops_len(rates: Seq<ProtoRate>, estimator: EwmaEstimator)
    ensures
        anomaly_ops(rates, estimator).len() == 4 * rates.len(),
    decreases rates.len(),
{
    if rates.len() > 0 {
        lemma_anomaly_ops_len(rates.drop_last(), estimator);
    }
}

/// Every protocol is exported as frozen or not: 1 exactly for those that are listed.
pub proof fn law_frozen_protocols_are_exported(frozen: Seq<ProtoIndex>, n: nat, i: int)
    requires
        0 <= i < n <= 5,
    ensures
        frozen_ops(frozen, n).len() == n,
        frozen.contains(proto_at(i)) ==> sets(
            frozen_ops(frozen, n)[i],
            Metric::AlertBaselineFrozen,
            proto_at(i),
            Binary64::one(),
        ),
        !frozen.contains(proto_at(i)) ==> sets(
            frozen_ops(frozen, n)[i],
            Metric::AlertBaselineFrozen,
            proto_at(i),
            Binary64::zero(),
        ),
    decreases n,
{
    lemma_frozen_ops_len(frozen, (n - 1) as nat);
    if i < n - 1 {
        law_frozen_protocols_are_exported(frozen, (n - 1) as nat, i);
    }
}

proof fn lemma_frozen_ops_len(frozen: Seq<ProtoIndex>, n: nat)
    ensures
        frozen_ops(frozen, n).len() == n,
    decreases n,
{
    if n > 0 {
        lemma_frozen_ops_len(frozen, (n - 1) as nat);
    }
}

/// Every alert that has a state is exported under its protocol and kind: the number of its
/// phase, then its count. Those of the alert at position `i` are at the position that is
/// returned, and the one after it.
pub proof fn law_alert_states_are_exported(states: Seq<Option<AlertState>>, n: nat, i: int) -> (at:
    int)
    requires
        0 <= i < n <= 15,
        states[i] is Some,
    ensures
        ({
            let ops = state_ops(states, n);
            let s = states[i]->0;
            let key = crate::alert::manager::key_at(i);
            &&& 0 <= at && at + 1 < ops.len()
            &&& ops[at].metric == Metric::AlertPhase
            &&& ops[at].proto == Some(key.proto) && ops[at].kind == Some(key.kind)
            &&& ops[at].lifecycle is None
            &&& ops[at].change == (MetricChange::Assign {
                value: Binary64::from_u64_spec(s.phase_value_spec() as u64),
            })
            &&& ops[at + 1].metric == Metric::AlertConsecutiveCount
            &&& ops[at + 1].proto == Some(key.proto) && ops[at + 1].kind == Some(key.kind)
            &&& ops[at + 1].lifecycle is None
            &&& ops[at + 1].change == (MetricChange::Assign {
                value: Binary64::from_u64_spec(s.consecutive_count as u64),
            })
        }),
    decreases n,
{
    let m = (n - 1) as nat;
    if i < m {
        law_alert_states_are_exported(states, m, i)
    } else {
        state_ops(states, m).len() as int
    }
}

/// An event counts one, under what happened, and sets nothing.
pub proof fn law_events_count_one(metric: Metric, lifecycle: AlertLifecycle)
    ensures
        event_op(metric, lifecycle).metric == metric,
        event_op(metric, lifecycle).lifecycle == Some(lifecycle),
        event_op(metric, lifecycle).proto is None,
        event_op(metric, lifecycle).kind is None,
        event_op(metric, lifecycle).change == (MetricChange::Increment { by: 1 }),
        count_op(metric).metric == metric,
        count_op(metric).lifecycle is None,
        count_op(metric).change == (MetricChange::Increment { by: 1 }),
{
}

/// Names, in the order in which the metrics are listed: traffic, baselines, anomalies, alerts
/// by protocol, SYN floods, port scans, and what was pushed.
pub proof fn law_metrics_have_their_names()
    ensures
        Metric::TrafficPps.name_spec() == "xdp_traffic_pps"@,
        Metric::TrafficBps.name_spec() == "xdp_traffic_bps"@,
        Metric::TrafficMixPct.name_spec() == "xdp_traffic_mix_pct"@,
        Metric::BaselinePpsMean.name_spec() == "xdp_baseline_pps_mean"@,
        Metric::BaselinePpsStddev.name_spec() == "xdp_baseline_pps_stddev"@,
        Metric::BaselineBpsMean.name_spec() == "xdp_baseline_bps_mean"@,
        Metric::BaselineBpsStddev.name_spec() == "xdp_baseline_bps_stddev"@,
        Metric::BaselineReady.name_spec() == "xdp_baseline_ready"@,
        Metric::AnomalyZScorePps.name_spec() == "xdp_anomaly_z_score_pps"@,
        Metric::AnomalyZScoreBps.name_spec() == "xdp_anomaly_z_score_bps"@,
        Metric::AnomalyLevel.name_spec() == "xdp_anomaly_level"@,
        Metric::AnomalyConfidence.name_spec() == "xdp_anomaly_confidence"@,
        Metric::AlertPhase.name_spec() == "xdp_alert_phase"@,
        Metric::AlertConsecutiveCount.name_spec() == "xdp_alert_consecutive_count"@,
        Metric::AlertBaselineFrozen.name_spec() == "xdp_alert_baseline_frozen"@,
        Metric::AlertEventsTotal.name_spec() == "xdp_alert_events_total"@,
        Metric::SynFloodTopOffenderPps.name_spec() == "xdp_synflood_top_offender_pps"@,
        Metric::SynFloodActiveAlerts.name_spec() == "xdp_synflood_active_alerts"@,
        Metric::SynFloodAlertEventsTotal.name_spec() == "xdp_synflood_alert_events_total"@,
        Metric::PortScanTopScannerPorts.name_spec() == "xdp_portscan_top_scanner_ports"@,
        Metric::PortScanActiveAlerts.name_spec() == "xdp_portscan_active_alerts"@,
        Metric::PortScanAlertEventsTotal.name_spec() == "xdp_portscan_alert_events_total"@,
        Metric::AlertmanagerPushesTotal.name_spec() == "xdp_alertmanager_pushes_total"@,
        Metric::AlertmanagerFailuresTotal.name_spec() == "xdp_alertmanager_failures_total"@,
        Metric::AlertmanagerDroppedTotal.name_spec() == "xdp_alertmanager_dropped_total"@,
{
}

} // verus!
