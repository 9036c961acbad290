//! Alerts in the form that Alertmanager takes, and when to send them again.
use vstd::prelude::*;
use vstd::string::*;

use crate::alert::model::{Alert, PortScanAlert, SynFloodAlert};
use crate::alert::state::AlertLifecycle;
use crate::config::ResolvedAlertmanagerConfig;
use crate::metrics::{count_op, Metric, MetricsHandle};
use crate::text::fixed::{fixed, fixed_text};
use crate::text::{decimal_text, digits, ipv4, ipv4_text, law_addresses_are_told_apart};
use crate::time::UnixTime;

verus! {

/// Number of alerts that may wait to be sent. A receiver that is down must not make the queue
/// grow without limit.
pub const DISPATCH_CHANNEL_CAPACITY: usize = 256;

/// Largest number of alerts in one request.
pub const MAX_BATCH: usize = 64;

/// Number of times that a request is tried.
pub const RETRY_ATTEMPTS: u32 = 3;

/// Wait before the second try, in milliseconds. It doubles with each further try.
pub const RETRY_BASE_DELAY_MILLIS: u64 = 300;

/// The first second that cannot be written as a date: the start of the year 10000.
pub const END_OF_DATES: u64 = 253_402_300_800;

/// Names and their values, in the order of the names.
#[derive(Debug, PartialEq, Eq)]
pub struct TextMap {
    pub entries: Vec<(String, String)>,
}

impl View for TextMap {
    type V = Seq<(Seq<char>, Seq<char>)>;

    open spec fn view(&self) -> Seq<(Seq<char>, Seq<char>)> {
        self.entries@.map_values(|e: (String, String)| (e.0@, e.1@))
    }
}

/// The value of the first entry with this name.
pub open spec fn lookup(entries: Seq<(Seq<char>, Seq<char>)>, name: Seq<char>) -> Option<Seq<char>>
    decreases entries.len(),
{
    if entries.len() == 0 {
        None
    } else if entries[0].0 == name {
        Some(entries[0].1)
    } else {
        lookup(entries.skip(1), name)
    }
}

/// Whether no name occurs twice.
pub open spec fn names_are_distinct(entries: Seq<(Seq<char>, Seq<char>)>) -> bool {
    forall|i: int, j: int|
        0 <= i < j < entries.len() ==> (#[trigger] entries[i]).0 != (#[trigger] entries[j]).0
}

impl TextMap {
    fn new() -> (r: Self)
        ensures
            r@ == Seq::<(Seq<char>, Seq<char>)>::empty(),
    {
        let r = TextMap { entries: Vec::new() };
        proof {
            assert(r@ =~= Seq::empty());
        }
        r
    }

    fn push(&mut self, name: &str, value: String)
        ensures
            final(self)@ == old(self)@.push((name@, value@)),
    {
        let ghost before = self@;
        self.entries.push((name.to_owned(), value));
        proof {
            assert(self@ =~= before.push((name@, value@)));
        }
    }

    /// The value with this name.
    pub fn get(&self, name: &str) -> (r: Option<&String>)
        ensures
            match r {
                Some(v) => lookup(self@, name@) == Some(v@),
                None => lookup(self@, name@) is None,
            },
    {
        let wanted: String = name.to_owned();
        let mut i: usize = 0;
        proof {
            assert(self@.skip(0) =~= self@);
        }
        while i < self.entries.len()
            invariant
                i <= self.entries@.len(),
                wanted@ == name@,
                lookup(self@, name@) == lookup(self@.skip(i as int), name@),
            decreases self.entries@.len() - i,
        {
            proof {
                assert(self@.skip(i as int)[0] == self@[i as int]);
                assert(self@.skip(i as int).skip(1) =~= self@.skip(i + 1));
            }
            if self.entries[i].0 == wanted {
                return Some(&self.entries[i].1);
            }
            i = i + 1;
        }
        None
    }
}

/// One alert in the form that Alertmanager takes. It tells alerts apart by their labels.
#[derive(Debug, PartialEq, Eq)]
pub struct AlertmanagerAlert {
    pub labels: TextMap,
    pub annotations: TextMap,
    pub starts_at: String,
    /// Set once the alert is over.
    pub ends_at: Option<String>,
    pub generator_url: Option<String>,
}

/// What an alert sent to Alertmanager says.
#[verifier::ext_equal]
pub ghost struct WireAlert {
    pub labels: Seq<(Seq<char>, Seq<char>)>,
    pub annotations: Seq<(Seq<char>, Seq<char>)>,
    pub starts_at: Seq<char>,
    pub ends_at: Option<Seq<char>>,
    pub generator_url: Option<Seq<char>>,
}

/// What an optional text says.
pub open spec fn said(text: Option<String>) -> Option<Seq<char>> {
    match text {
        Some(t) => Some(t@),
        None => None,
    }
}

/// What an optional text says.
pub open spec fn str_said(text: Option<&str>) -> Option<Seq<char>> {
    match text {
        Some(t) => Some(t@),
        None => None,
    }
}

impl View for AlertmanagerAlert {
    type V = WireAlert;

    open spec fn view(&self) -> WireAlert {
        WireAlert {
            labels: self.labels@,
            annotations: self.annotations@,
            starts_at: self.starts_at@,
            ends_at: said(self.ends_at),
            generator_url: said(self.generator_url),
        }
    }
}

/// A point in time as a date and a time of day, as `humantime` writes it.
pub uninterp spec fn rfc3339_text(secs: u64, nanos: u32) -> Seq<char>;

/// Whether a point in time can be written as a date.
pub open spec fn has_date(t: UnixTime) -> bool {
    t.secs < END_OF_DATES && t.nanos < 1_000_000_000
}

/// Whether a point in time can be written as a date.
pub fn is_writable(t: UnixTime) -> (r: bool)
    ensures
        r == has_date(t),
{
    t.secs < END_OF_DATES && t.nanos < 1_000_000_000
}

/// Calls `humantime::format_rfc3339` on the point in time and writes the result out. What is
/// claimed: the text depends on the seconds and nanoseconds since 1970 alone. The call fails
/// for times that have no date, which are left out. What the text is, a calendar, is not said.
#[verifier::external_body]
fn rfc3339(t: UnixTime) -> (r: String)
    requires
        has_date(t),
    ensures
        r@ == rfc3339_text(t.secs, t.nanos),
{
    let since_epoch = std::time::Duration::new(t.secs, t.nanos);
    humantime::format_rfc3339(std::time::UNIX_EPOCH + since_epoch).to_string()
}

/// The date of an optional point in time.
pub open spec fn date_of(t: Option<UnixTime>) -> Option<Seq<char>> {
    match t {
        Some(t) => Some(rfc3339_text(t.secs, t.nanos)),
        None => None,
    }
}

/// An alert that Alertmanager can be told of.
pub trait ToWire {
    /// What Alertmanager is told. An alert without an end is still open.
    spec fn wire(
        &self,
        now: UnixTime,
        ends_at: Option<UnixTime>,
        generator_url: Option<Seq<char>>,
    ) -> WireAlert;

    /// The alert in the form that Alertmanager takes.
    fn to_wire(
        &self,
        now: UnixTime,
        ends_at: Option<UnixTime>,
        generator_url: Option<&str>,
    ) -> (r: AlertmanagerAlert)
        requires
            has_date(now),
            ends_at matches Some(e) ==> has_date(e),
        ensures
            r@ == self.wire(now, ends_at, str_said(generator_url)),
    ;
}

/// Puts the parts of an alert together.
fn assemble(
    labels: TextMap,
    annotations: TextMap,
    now: UnixTime,
    ends_at: Option<UnixTime>,
    generator_url: Option<&str>,
) -> (r: AlertmanagerAlert)
    requires
        has_date(now),
        ends_at matches Some(e) ==> has_date(e),
    ensures
        r@ == (WireAlert {
            labels: labels@,
            annotations: annotations@,
            starts_at: rfc3339_text(now.secs, now.nanos),
            ends_at: date_of(ends_at),
            generator_url: str_said(generator_url),
        }),
{
    AlertmanagerAlert {
        labels,
        annotations,
        starts_at: rfc3339(now),
        ends_at: match ends_at {
            Some(e) => Some(rfc3339(e)),
            None => None,
        },
        generator_url: match generator_url {
            Some(u) => Some(u.to_owned()),
            None => None,
        },
    }
}

/// One line on a protocol's alert.
pub open spec fn anomaly_summary(alert: Alert) -> Seq<char> {
    alert.level.label_spec() + " "@ + alert.kind.label_spec() + " anomaly on "@
        + alert.proto.label_spec() + " traffic"@
}

/// What Alertmanager is told of a protocol's alert. The labels hold what stays the same from
/// firing to resolving; level and confidence may differ, so they are annotations.
pub open spec fn alert_wire(
    alert: Alert,
    now: UnixTime,
    ends_at: Option<UnixTime>,
    generator_url: Option<Seq<char>>,
) -> WireAlert {
    WireAlert {
        labels: seq![
            ("alertname"@, "XdpTrafficAnomaly"@),
            ("kind"@, alert.kind.label_spec()),
            ("proto"@, alert.proto.label_spec()),
        ],
        annotations: seq![
            ("confidence"@, fixed(alert.confidence, 3)),
            ("level"@, alert.level.label_spec()),
            ("summary"@, anomaly_summary(alert)),
        ],
        starts_at: rfc3339_text(now.secs, now.nanos),
        ends_at: date_of(ends_at),
        generator_url,
    }
}

/// A protocol's alert in the form that Alertmanager takes. Without an end it is still open:
/// it has just fired, or goes on firing.
pub fn alert_to_wire(
    alert: &Alert,
    now: UnixTime,
    ends_at: Option<UnixTime>,
    generator_url: Option<&str>,
) -> (r: AlertmanagerAlert)
    requires
        has_date(now),
        ends_at matches Some(e) ==> has_date(e),
    ensures
        r@ == alert_wire(*alert, now, ends_at, str_said(generator_url)),
{
    let mut labels = TextMap::new();
    labels.push("alertname", "XdpTrafficAnomaly".to_owned());
    labels.push("kind", alert.kind.label().to_owned());
    labels.push("proto", alert.proto.label().to_owned());
    let mut summary: String = alert.level.label().to_owned();
    summary.append(" ");
    summary.append(alert.kind.label());
    summary.append(" anomaly on ");
    summary.append(alert.proto.label());
    summary.append(" traffic");
    let mut annotations = TextMap::new();
    annotations.push("confidence", fixed_text(alert.confidence, 3));
    annotations.push("level", alert.level.label().to_owned());
    annotations.push("summary", summary);
    let r = assemble(labels, annotations, now, ends_at, generator_url);
    proof {
        assert(r@ =~= alert_wire(*alert, now, ends_at, str_said(generator_url)));
    }
    r
}

/// What Alertmanager is told of a SYN flood. Only the address stays the same from firing to
/// resolving.
pub open spec fn synflood_wire(
    alert: SynFloodAlert,
    now: UnixTime,
    ends_at: Option<UnixTime>,
    generator_url: Option<Seq<char>>,
) -> WireAlert {
    WireAlert {
        labels: seq![("alertname"@, "XdpSynFlood"@), ("src_ip"@, ipv4(alert.src_ip))],
        annotations: seq![
            ("confidence"@, fixed(alert.confidence, 3)),
            ("pps"@, fixed(alert.pps, 1)),
            ("summary"@, "SYN-flood from "@ + ipv4(alert.src_ip)),
        ],
        starts_at: rfc3339_text(now.secs, now.nanos),
        ends_at: date_of(ends_at),
        generator_url,
    }
}

/// A SYN-flood alert in the form that Alertmanager takes.
pub fn synflood_alert_to_wire(
    alert: &SynFloodAlert,
    now: UnixTime,
    ends_at: Option<UnixTime>,
    generator_url: Option<&str>,
) -> (r: AlertmanagerAlert)
    requires
        has_date(now),
        ends_at matches Some(e) ==> has_date(e),
    ensures
        r@ == synflood_wire(*alert, now, ends_at, str_said(generator_url)),
{
    let mut labels = TextMap::new();
    labels.push("alertname", "XdpSynFlood".to_owned());
    labels.push("src_ip", ipv4_text(alert.src_ip));
    let mut summary: String = "SYN-flood from ".to_owned();
    summary.append(ipv4_text(alert.src_ip).as_str());
    let mut annotations = TextMap::new();
    annotations.push("confidence", fixed_text(alert.confidence, 3));
    annotations.push("pps", fixed_text(alert.pps, 1));
    annotations.push("summary", summary);
    let r = assemble(labels, annotations, now, ends_at, generator_url);
    proof {
        assert(r@ =~= synflood_wire(*alert, now, ends_at, str_said(generator_url)));
    }
    r
}

/// What Alertmanager is told of a port scan. Only the address stays the same from firing to
/// resolving.
pub open spec fn port_scan_wire(
    alert: PortScanAlert,
    now: UnixTime,
    ends_at: Option<UnixTime>,
    generator_url: Option<Seq<char>>,
) -> WireAlert {
    WireAlert {
        labels: seq![("alertname"@, "XdpPortScan"@), ("src_ip"@, ipv4(alert.src_ip))],
        annotations: seq![
            ("confidence"@, fixed(alert.confidence, 3)),
            ("distinct_ports"@, digits(alert.distinct_ports as nat)),
            ("summary"@, "Port scan from "@ + ipv4(alert.src_ip)),
        ],
        starts_at: rfc3339_text(now.secs, now.nanos),
        ends_at: date_of(ends_at),
        generator_url,
    }
}

/// A port-scan alert in the form that Alertmanager takes.
pub fn port_scan_alert_to_wire(
    alert: &PortScanAlert,
    now: UnixTime,
    ends_at: Option<UnixTime>,
    generator_url: Option<&str>,
) -> (r: AlertmanagerAlert)
    requires
        has_date(now),
        ends_at matches Some(e) ==> has_date(e),
    ensures
        r@ == port_scan_wire(*alert, now, ends_at, str_said(generator_url)),
{
    let mut labels = TextMap::new();
    labels.push("alertname", "XdpPortScan".to_owned());
    labels.push("src_ip", ipv4_text(alert.src_ip));
    let mut summary: String = "Port scan from ".to_owned();
    summary.append(ipv4_text(alert.src_ip).as_str());
    let mut annotations = TextMap::new();
    annotations.push("confidence", fixed_text(alert.confidence, 3));
    annotations.push("distinct_ports", decimal_text(alert.distinct_ports as u64));
    annotations.push("summary", summary);
    let r = assemble(labels, annotations, now, ends_at, generator_url);
    proof {
        assert(r@ =~= port_scan_wire(*alert, now, ends_at, str_said(generator_url)));
    }
    r
}

impl ToWire for Alert {
    open spec fn wire(
        &self,
        now: UnixTime,
        ends_at: Option<UnixTime>,
        generator_url: Option<Seq<char>>,
    ) -> WireAlert {
        alert_wire(*self, now, ends_at, generator_url)
    }

    fn to_wire(
        &self,
        now: UnixTime,
        ends_at: Option<UnixTime>,
        generator_url: Option<&str>,
    ) -> (r: AlertmanagerAlert) {
        alert_to_wire(self, now, ends_at, generator_url)
    }
}

impl ToWire for SynFloodAlert {
    open spec fn wire(
        &self,
        now: UnixTime,
        ends_at: Option<UnixTime>,
        generator_url: Option<Seq<char>>,
    ) -> WireAlert {
        synflood_wire(*self, now, ends_at, generator_url)
    }

    fn to_wire(
        &self,
        now: UnixTime,
        ends_at: Option<UnixTime>,
        generator_url: Option<&str>,
    ) -> (r: AlertmanagerAlert) {
        synflood_alert_to_wire(self, now, ends_at, generator_url)
    }
}

impl ToWire for PortScanAlert {
    open spec fn wire(
        &self,
        now: UnixTime,
        ends_at: Option<UnixTime>,
        generator_url: Option<Seq<char>>,
    ) -> WireAlert {
        port_scan_wire(*self, now, ends_at, generator_url)
    }

    fn to_wire(
        &self,
        now: UnixTime,
        ends_at: Option<UnixTime>,
        generator_url: Option<&str>,
    ) -> (r: AlertmanagerAlert) {
        port_scan_alert_to_wire(self, now, ends_at, generator_url)
    }
}

/// When an alert with this change of phase is over: now, if it has resolved.
pub open spec fn end_of(lifecycle: AlertLifecycle, now: UnixTime) -> Option<UnixTime> {
    match lifecycle {
        AlertLifecycle::Resolved => Some(now),
        AlertLifecycle::Fired => None,
    }
}

/// What Alertmanager is told after a tick: the changes, then the alerts that go on firing.
pub open spec fn dispatched<T: ToWire>(
    transitions: Seq<(T, AlertLifecycle)>,
    heartbeats: Seq<T>,
    now: UnixTime,
    generator_url: Option<Seq<char>>,
) -> Seq<WireAlert> {
    Seq::new(
        transitions.len(),
        |i: int| transitions[i].0.wire(now, end_of(transitions[i].1, now), generator_url),
    ) + Seq::new(heartbeats.len(), |i: int| heartbeats[i].wire(now, None, generator_url))
}

/// What a list of alerts says.
pub open spec fn wires(alerts: Seq<AlertmanagerAlert>) -> Seq<WireAlert> {
    alerts.map_values(|a: AlertmanagerAlert| a@)
}

/// What to push after a tick: the changes, then the alerts that go on firing. Nothing without
/// a sink to push to.
pub fn dispatch_tick_alerts<T: ToWire>(
    sink: bool,
    generator_url: Option<&str>,
    transitions: &[(T, AlertLifecycle)],
    heartbeats: &[T],
    now: UnixTime,
) -> (r: Vec<AlertmanagerAlert>)
    requires
        sink ==> has_date(now),
    ensures
        wires(r@) == (if sink {
            dispatched(transitions@, heartbeats@, now, str_said(generator_url))
        } else {
            Seq::empty()
        }),
{
    let mut r: Vec<AlertmanagerAlert> = Vec::new();
    if !sink {
        proof {
            assert(wires(r@) =~= Seq::empty());
        }
        return r;
    }
    let ghost all = dispatched(transitions@, heartbeats@, now, str_said(generator_url));
    let mut i: usize = 0;
    while i < transitions.len()
        invariant
            i <= transitions@.len(),
            has_date(now),
            all == dispatched(transitions@, heartbeats@, now, str_said(generator_url)),
            wires(r@) =~= all.take(i as int),
        decreases transitions@.len() - i,
    {
        let ghost before = r@;
        let ends_at = match transitions[i].1 {
            AlertLifecycle::Resolved => Some(now),
            AlertLifecycle::Fired => None,
        };
        r.push(transitions[i].0.to_wire(now, ends_at, generator_url));
        proof {
            assert(wires(r@) =~= wires(before).push(all[i as int]));
        }
        i = i + 1;
    }
    let mut k: usize = 0;
    while k < heartbeats.len()
        invariant
            k <= heartbeats@.len(),
            has_date(now),
            all == dispatched(transitions@, heartbeats@, now, str_said(generator_url)),
            wires(r@) =~= all.take(transitions@.len() + k),
        decreases heartbeats@.len() - k,
    {
        let ghost before = r@;
        r.push(heartbeats[k].to_wire(now, None, generator_url));
        proof {
            assert(wires(r@) =~= wires(before).push(all[transitions@.len() + k]));
        }
        k = k + 1;
    }
    proof {
        assert(all.take(all.len() as int) =~= all);
    }
    r
}

/// What became of an attempt to queue an alert.
#[derive(Debug, Clone, Copy, PartialEq, Eq, Structural)]
pub enum PushOutcome {
    Queued,
    /// The queue holds as much as it can; the alert is lost.
    Full,
    /// Nobody reads the queue any more; the alert is lost.
    Closed,
}

/// Counts an alert that was lost because the queue was full.
pub fn settle_push(outcome: PushOutcome, metrics: &mut MetricsHandle)
    ensures
        final(metrics).ops() == (if outcome == PushOutcome::Full {
            old(metrics).ops().push(count_op(Metric::AlertmanagerDroppedTotal))
        } else {
            old(metrics).ops()
        }),
{
    match outcome {
        PushOutcome::Full => metrics.record_alertmanager_dropped(),
        PushOutcome::Queued => {},
        PushOutcome::Closed => {},
    }
}

/// Where to push to; nowhere unless pushing is enabled.
pub fn push_target(cfg: &ResolvedAlertmanagerConfig) -> (r: Option<&String>)
    requires
        cfg.wf(),
    ensures
        match r {
            Some(url) => cfg.enabled && cfg.url == Some(*url),
            None => !cfg.enabled,
        },
{
    if cfg.enabled {
        cfg.url.as_ref()
    } else {
        None
    }
}

/// Whether one more alert may go into a request that holds `len` of them.
pub fn has_room(len: usize) -> (r: bool)
    ensures
        r == (len < MAX_BATCH),
{
    len < MAX_BATCH
}

/// How a request ended.
#[derive(Debug, Clone, Copy, PartialEq, Eq, Structural)]
pub enum Reply {
    /// There was a response, with this status.
    Status { code: u16 },
    /// There was none.
    TransportError,
}

/// What to do after a try.
#[derive(Debug, Clone, Copy, PartialEq, Eq, Structural)]
pub enum RetryStep {
    /// The alerts were taken.
    Delivered,
    /// The request was refused, and would be again.
    Rejected,
    /// Try again after this many milliseconds.
    Wait { millis: u64 },
    /// That was the last try.
    GiveUp,
}

/// 2 to the power of `n`.
pub open spec fn doubled(n: nat) -> nat
    decreases n,
{
    if n == 0 {
        1
    } else {
        2 * doubled((n - 1) as nat)
    }
}

/// What to do after try number `attempt`, counted from 0.
pub open spec fn next_step(attempt: u32, reply: Reply) -> RetryStep {
    let retry = if attempt + 1 < RETRY_ATTEMPTS {
        RetryStep::Wait { millis: (RETRY_BASE_DELAY_MILLIS * doubled(attempt as nat)) as u64 }
    } else {
        RetryStep::GiveUp
    };
    match reply {
        Reply::Status { code } => if 200 <= code < 300 {
            RetryStep::Delivered
        } else if 400 <= code < 500 {
            RetryStep::Rejected
        } else {
            retry
        },
        Reply::TransportError => retry,
    }
}

/// What to do after try number `attempt`, counted from 0. A request that was refused is not
/// sent again, one that failed is, with a longer wait each time.
pub fn post_with_retry(attempt: u32, reply: Reply) -> (r: RetryStep)
    requires
        attempt < RETRY_ATTEMPTS,
    ensures
        r == next_step(attempt, reply),
{
    proof {
        reveal_with_fuel(doubled, 4);
    }
    let retry = if attempt == 0 {
        RetryStep::Wait { millis: RETRY_BASE_DELAY_MILLIS }
    } else if attempt == 1 {
        RetryStep::Wait { millis: RETRY_BASE_DELAY_MILLIS * 2 }
    } else {
        RetryStep::GiveUp
    };
    match reply {
        Reply::Status { code } => {
            if code >= 200 && code < 300 {
                RetryStep::Delivered
            } else if code >= 400 && code < 500 {
                RetryStep::Rejected
            } else {
                retry
            }
        },
        Reply::TransportError => retry,
    }
}

/// Two alerts of one protocol and kind have the same labels, whatever their level and
/// confidence and whether they fire or resolve: to Alertmanager they are one alert.
pub proof fn law_labels_last_from_firing_to_resolving(
    fired: Alert,
    resolved: Alert,
    t1: UnixTime,
    t2: UnixTime,
    end1: Option<UnixTime>,
    end2: Option<UnixTime>,
    url: Option<Seq<char>>,
)
    requires
        fired.proto == resolved.proto,
        fired.kind == resolved.kind,
    ensures
        alert_wire(fired, t1, end1, url).labels == alert_wire(resolved, t2, end2, url).labels,
{
}

/// Two alerts of one source address have the same labels, whatever else they say.
pub proof fn law_labels_last_per_address(
    flood1: SynFloodAlert,
    flood2: SynFloodAlert,
    scan1: PortScanAlert,
    scan2: PortScanAlert,
    t1: UnixTime,
    t2: UnixTime,
    end1: Option<UnixTime>,
    end2: Option<UnixTime>,
    url: Option<Seq<char>>,
)
    requires
        flood1.src_ip == flood2.src_ip,
        scan1.src_ip == scan2.src_ip,
    ensures
        synflood_wire(flood1, t1, end1, url).labels == synflood_wire(flood2, t2, end2, url).labels,
        port_scan_wire(scan1, t1, end1, url).labels == port_scan_wire(scan2, t2, end2, url).labels,
{
}

/// Alerts of different protocols or kinds have different labels.
pub proof fn law_labels_tell_alerts_apart(
    a: Alert,
    b: Alert,
    t1: UnixTime,
    t2: UnixTime,
    end1: Option<UnixTime>,
    end2: Option<UnixTime>,
    url: Option<Seq<char>>,
)
    requires
        a.proto != b.proto || a.kind != b.kind,
    ensures
        alert_wire(a, t1, end1, url).labels != alert_wire(b, t2, end2, url).labels,
{
    reveal_strlit("spike");
    reveal_strlit("drop");
    reveal_strlit("emergency");
    reveal_strlit("ICMP");
    reveal_strlit("TCP");
    reveal_strlit("UDP");
    reveal_strlit("IPv6");
    reveal_strlit("OTHER");
    let la = alert_wire(a, t1, end1, url).labels;
    let lb = alert_wire(b, t2, end2, url).labels;
    assert("TCP"@[0] != "UDP"@[0]);
    assert("ICMP"@[1] != "IPv6"@[1]);
    assert(la[1].1.len() == lb[1].1.len() ==> a.kind == b.kind);
    assert(la[1] != lb[1] || la[2] != lb[2]);
}

/// No name occurs twice among the labels or the annotations of an alert.
pub proof fn law_names_are_distinct(
    alert: Alert,
    flood: SynFloodAlert,
    scan: PortScanAlert,
    now: UnixTime,
    end: Option<UnixTime>,
    url: Option<Seq<char>>,
)
    ensures
        names_are_distinct(alert_wire(alert, now, end, url).labels),
        names_are_distinct(alert_wire(alert, now, end, url).annotations),
        names_are_distinct(synflood_wire(flood, now, end, url).labels),
        names_are_distinct(synflood_wire(flood, now, end, url).annotations),
        names_are_distinct(port_scan_wire(scan, now, end, url).labels),
        names_are_distinct(port_scan_wire(scan, now, end, url).annotations),
{
    reveal_strlit("alertname");
    reveal_strlit("kind");
    reveal_strlit("proto");
    reveal_strlit("src_ip");
    reveal_strlit("confidence");
    reveal_strlit("level");
    reveal_strlit("summary");
    reveal_strlit("pps");
    reveal_strlit("distinct_ports");
    assert("alertname"@.len() == 9 && "kind"@.len() == 4 && "proto"@.len() == 5);
    assert("src_ip"@.len() == 6 && "confidence"@.len() == 10 && "level"@.len() == 5);
    assert("summary"@.len() == 7 && "pps"@.len() == 3 && "distinct_ports"@.len() == 14);
}

/// Of the alerts pushed after a tick exactly those that resolved have an end, and it is the
/// time of the tick.
pub proof fn law_only_resolved_alerts_end<T: ToWire>(
    transitions: Seq<(T, AlertLifecycle)>,
    heartbeats: Seq<T>,
    now: UnixTime,
    url: Option<Seq<char>>,
    i: int,
)
    requires
        0 <= i < transitions.len() + heartbeats.len(),
    ensures
        dispatched(transitions, heartbeats, now, url).len() == transitions.len()
            + heartbeats.len(),
        dispatched(transitions, heartbeats, now, url)[i] == (if i < transitions.len() {
            transitions[i].0.wire(
                now,
                if transitions[i].1 == AlertLifecycle::Resolved {
                    Some(now)
                } else {
                    None
                },
                url,
            )
        } else {
            heartbeats[i - transitions.len()].wire(now, None, url)
        }),
{
}

/// A request is tried three times at most, and waits twice as long before each further try.
pub proof fn law_retries_are_bounded(attempt: u32, reply: Reply)
    requires
        attempt < RETRY_ATTEMPTS,
    ensures
        next_step(attempt, reply) is Wait ==> attempt + 1 < 3,
        next_step(0, Reply::TransportError) == (RetryStep::Wait { millis: 300 }),
        next_step(1, Reply::TransportError) == (RetryStep::Wait { millis: 600 }),
        next_step(2, Reply::TransportError) == RetryStep::GiveUp,
{
    reveal_with_fuel(doubled, 4);
}

/// Alerts of different source addresses have different labels, and so have a SYN flood and a
/// port scan of one address.
pub proof fn law_labels_tell_addresses_apart(
    flood1: SynFloodAlert,
    flood2: SynFloodAlert,
    scan1: PortScanAlert,
    scan2: PortScanAlert,
    t1: UnixTime,
    t2: UnixTime,
    end1: Option<UnixTime>,
    end2: Option<UnixTime>,
    url: Option<Seq<char>>,
)
    ensures
        flood1.src_ip != flood2.src_ip ==> synflood_wire(flood1, t1, end1, url).labels
            != synflood_wire(flood2, t2, end2, url).labels,
        scan1.src_ip != scan2.src_ip ==> port_scan_wire(scan1, t1, end1, url).labels
            != port_scan_wire(scan2, t2, end2, url).labels,
        synflood_wire(flood1, t1, end1, url).labels != port_scan_wire(scan1, t2, end2, url).labels,
{
    reveal_strlit("XdpSynFlood");
    reveal_strlit("XdpPortScan");
    assert("XdpSynFlood"@[3] != "XdpPortScan"@[3]);
    let f1 = synflood_wire(flood1, t1, end1, url).labels;
    let f2 = synflood_wire(flood2, t2, end2, url).labels;
    let s1 = port_scan_wire(scan1, t1, end1, url).labels;
    let s2 = port_scan_wire(scan2, t2, end2, url).labels;
    let s1_later = port_scan_wire(scan1, t2, end2, url).labels;
    assert(f1[0].1 != s1_later[0].1);
    assert(f1[1].1 == ipv4(flood1.src_ip) && f2[1].1 == ipv4(flood2.src_ip));
    assert(s1[1].1 == ipv4(scan1.src_ip) && s2[1].1 == ipv4(scan2.src_ip));
    if f1 == f2 {
        law_addresses_are_told_apart(flood1.src_ip, flood2.src_ip);
    }
    if s1 == s2 {
        law_addresses_are_told_apart(scan1.src_ip, scan2.src_ip);
    }
}

/// A name finds the value of the first entry that has it, and nothing where none has it.
pub proof fn law_lookup_finds_the_first(
    entries: Seq<(Seq<char>, Seq<char>)>,
    name: Seq<char>,
    i: int,
)
    requires
        0 <= i <= entries.len(),
        forall|k: int| 0 <= k < i ==> (#[trigger] entries[k]).0 != name,
        i < entries.len() ==> entries[i].0 == name,
    ensures
        i < entries.len() ==> lookup(entries, name) == Some(entries[i].1),
        i == entries.len() ==> lookup(entries, name) is None,
    decreases i,
{
    if i > 0 {
        let rest = entries.skip(1);
        assert(entries[0].0 != name);
        assert forall|k: int| 0 <= k < i - 1 implies (#[trigger] rest[k]).0 != name by {
            assert(entries[k + 1].0 != name);
        }
        law_lookup_finds_the_first(rest, name, i - 1);
    }
}

/// What a receiver reads off a protocol's alert: by their names, the kind and the protocol
/// among the labels, the level and the confidence with three decimal places among the
/// annotations; the time of the tick as its start, and the end, if it has one, as it is given.
pub proof fn law_protocol_alert_is_read_off(
    alert: Alert,
    now: UnixTime,
    end: Option<UnixTime>,
    url: Option<Seq<char>>,
)
    ensures
        ({
            let w = alert_wire(alert, now, end, url);
            &&& lookup(w.labels, "alertname"@) == Some("XdpTrafficAnomaly"@)
            &&& lookup(w.labels, "kind"@) == Some(alert.kind.label_spec())
            &&& lookup(w.labels, "proto"@) == Some(alert.proto.label_spec())
            &&& lookup(w.annotations, "level"@) == Some(alert.level.label_spec())
            &&& lookup(w.annotations, "confidence"@) == Some(fixed(alert.confidence, 3))
            &&& lookup(w.annotations, "summary"@) == Some(
                alert.level.label_spec() + " "@ + alert.kind.label_spec() + " anomaly on "@
                    + alert.proto.label_spec() + " traffic"@,
            )
            &&& w.starts_at == rfc3339_text(now.secs, now.nanos)
            &&& end matches Some(e) ==> w.ends_at == Some(rfc3339_text(e.secs, e.nanos))
            &&& end is None ==> w.ends_at is None
            &&& w.generator_url == url
        }),
{
    let w = alert_wire(alert, now, end, url);
    lemma_names_differ();
    law_lookup_finds_the_first(w.labels, "alertname"@, 0);
    law_lookup_finds_the_first(w.labels, "kind"@, 1);
    law_lookup_finds_the_first(w.labels, "proto"@, 2);
    law_lookup_finds_the_first(w.annotations, "confidence"@, 0);
    law_lookup_finds_the_first(w.annotations, "level"@, 1);
    law_lookup_finds_the_first(w.annotations, "summary"@, 2);
}

/// What a receiver reads off an address's alert: by their names, the address among the labels;
/// the confidence with three decimal places and the rate with one, or the number of ports,
/// among the annotations; its start and, if it has one, its end.
pub proof fn law_address_alert_is_read_off(
    flood: SynFloodAlert,
    scan: PortScanAlert,
    now: UnixTime,
    end: Option<UnixTime>,
    url: Option<Seq<char>>,
)
    ensures
        ({
            let f = synflood_wire(flood, now, end, url);
            let s = port_scan_wire(scan, now, end, url);
            &&& lookup(f.labels, "alertname"@) == Some("XdpSynFlood"@)
            &&& lookup(f.labels, "src_ip"@) == Some(ipv4(flood.src_ip))
            &&& lookup(f.annotations, "confidence"@) == Some(fixed(flood.confidence, 3))
            &&& lookup(f.annotations, "pps"@) == Some(fixed(flood.pps, 1))
            &&& lookup(f.annotations, "summary"@) == Some("SYN-flood from "@ + ipv4(flood.src_ip))
            &&& lookup(s.labels, "alertname"@) == Some("XdpPortScan"@)
            &&& lookup(s.labels, "src_ip"@) == Some(ipv4(scan.src_ip))
            &&& lookup(s.annotations, "confidence"@) == Some(fixed(scan.confidence, 3))
            &&& lookup(s.annotations, "distinct_ports"@) == Some(
                digits(scan.distinct_ports as nat),
            )
            &&& lookup(s.annotations, "summary"@) == Some("Port scan from "@ + ipv4(scan.src_ip))
            &&& f.starts_at == rfc3339_text(now.secs, now.nanos)
            &&& s.starts_at == rfc3339_text(now.secs, now.nanos)
            &&& end matches Some(e) ==> f.ends_at == Some(rfc3339_text(e.secs, e.nanos))
                && s.ends_at == Some(rfc3339_text(e.secs, e.nanos))
            &&& end is None ==> f.ends_at is None && s.ends_at is None
            &&& f.generator_url == url && s.generator_url == url
        }),
{
    let f = synflood_wire(flood, now, end, url);
    let s = port_scan_wire(scan, now, end, url);
    lemma_names_differ();
    law_lookup_finds_the_first(f.labels, "alertname"@, 0);
    law_lookup_finds_the_first(f.labels, "src_ip"@, 1);
    law_lookup_finds_the_first(f.annotations, "confidence"@, 0);
    law_lookup_finds_the_first(f.annotations, "pps"@, 1);
    law_lookup_finds_the_first(f.annotations, "summary"@, 2);
    law_lookup_finds_the_first(s.labels, "alertname"@, 0);
    law_lookup_finds_the_first(s.labels, "src_ip"@, 1);
    law_lookup_finds_the_first(s.annotations, "confidence"@, 0);
    law_lookup_finds_the_first(s.annotations, "distinct_ports"@, 1);
    law_lookup_finds_the_first(s.annotations, "summary"@, 2);
}

/// The names of labels and annotations differ.
proof fn lemma_names_differ()
    ensures
        "alertname"@ != "kind"@ && "alertname"@ != "proto"@ && "kind"@ != "proto"@,
        "alertname"@ != "src_ip"@,
        "confidence"@ != "level"@ && "confidence"@ != "summary"@ && "level"@ != "summary"@,
        "confidence"@ != "pps"@ && "pps"@ != "summary"@,
        "confidence"@ != "distinct_ports"@ && "distinct_ports"@ != "summary"@,
{
    reveal_strlit("alertname");
    reveal_strlit("kind");
    reveal_strlit("proto");
    reveal_strlit("src_ip");
    reveal_strlit("confidence");
    reveal_strlit("level");
    reveal_strlit("summary");
    reveal_strlit("pps");
    reveal_strlit("distinct_ports");
    assert("alertname"@.len() == 9 && "kind"@.len() == 4 && "proto"@.len() == 5);
    assert("src_ip"@.len() == 6 && "confidence"@.len() == 10 && "level"@.len() == 5);
    assert("summary"@.len() == 7 && "pps"@.len() == 3 && "distinct_ports"@.len() == 14);
}

/// What follows a reply: a status from 200 to 299 means that the alerts were taken, one from
/// 400 to 499 that the request is not sent again; after anything else, or no reply, the
/// request is sent again until its third try, and given up then.
pub proof fn law_replies_decide(attempt: u32, reply: Reply)
    requires
        attempt < 3,
    ensures
        ({
            let taken = reply matches Reply::Status { code } && 200 <= code <= 299;
            let refused = reply matches Reply::Status { code } && 400 <= code <= 499;
            &&& next_step(attempt, reply) == RetryStep::Delivered <==> taken
            &&& next_step(attempt, reply) == RetryStep::Rejected <==> refused
            &&& next_step(attempt, reply) == RetryStep::GiveUp <==> !taken && !refused && attempt
                == 2
            &&& !taken && !refused && attempt == 0 ==> next_step(attempt, reply)
                == (RetryStep::Wait { millis: 300 })
            &&& !taken && !refused && attempt == 1 ==> next_step(attempt, reply)
                == (RetryStep::Wait { millis: 600 })
        }),
{
    reveal_with_fuel(doubled, 4);
}

/// A point in time can be written as a date exactly if it is before the year 10000 and its
/// nanoseconds are less than a second.
pub proof fn law_dates_end_with_the_year_9999(t: UnixTime)
    ensures
        has_date(t) <==> t.secs <= 253_402_300_799 && t.nanos <= 999_999_999,
{
}

/// What is pushed of an alert is the same whichever kind of alert it is dispatched as, and an
/// alert ends exactly if it has resolved.
pub proof fn law_every_alert_has_its_wire_form(
    alert: Alert,
    flood: SynFloodAlert,
    scan: PortScanAlert,
    now: UnixTime,
    end: Option<UnixTime>,
    url: Option<Seq<char>>,
)
    ensures
        alert.wire(now, end, url) == alert_wire(alert, now, end, url),
        flood.wire(now, end, url) == synflood_wire(flood, now, end, url),
        scan.wire(now, end, url) == port_scan_wire(scan, now, end, url),
        end_of(AlertLifecycle::Resolved, now) == Some(now),
        end_of(AlertLifecycle::Fired, now) is None,
{
}

} // verus!
