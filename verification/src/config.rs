//! Configuration: what a configuration file may say, what it comes to, and the detectors and
//! alert managers that are built from it.
use vstd::prelude::*;
use vstd::string::*;

use crate::alert::manager::AlertRule;
use crate::alert::model::AlertKind;
use crate::alert::port_scan_manager::PortScanAlertManager;
use crate::alert::state::AlertTiming;
use crate::alert::synflood_manager::SynFloodAlertManager;
use crate::anomaly::emergency::{EmergencyDetector, EmergencyThreshold};
use crate::anomaly::model::AnomalyLevel;
use crate::anomaly::port_scan_detector::PortScanDetector;
use crate::anomaly::synflood::SynFloodDetector;
use crate::baseline::estimator::EwmaEstimator;
use crate::baseline::ewma::Ewma;
use crate::binary64::Binary64;
use crate::common::ProtoIndex;
use crate::text::{lower, lower_char};
use crate::time::{law_seconds_round_trip, Duration};

verus! {

/// Seconds between two evaluations of the per-protocol pipeline.
pub const ANOMALY_EVAL_INTERVAL_SECS: u64 = 30;

/// A configuration file. Whatever it leaves out has a default.
#[derive(Debug)]
pub struct Config {
    pub baseline: Option<BaselineConfig>,
    pub alert_rules: Vec<AlertRuleConfig>,
    pub emergency_thresholds: Vec<EmergencyThresholdConfig>,
    pub syn_flood: Option<SynFloodConfig>,
    pub port_scan: Option<PortScanConfig>,
    pub alertmanager: Option<AlertmanagerConfig>,
}

/// Parameters of the baselines.
#[derive(Debug, Clone, Copy)]
pub struct BaselineConfig {
    /// Weight of a new sample, above 0 and up to 1.
    pub alpha: Option<Binary64>,
    pub min_samples: Option<u64>,
    pub min_stddev: Option<Binary64>,
    pub min_elapsed_secs: Option<u64>,
}

/// An alert rule.
#[derive(Debug)]
pub struct AlertRuleConfig {
    /// `spike`, `drop` or `emergency`.
    pub kind: String,
    /// `normal`, `suspicious` or `severe`.
    pub min_level: String,
    pub min_confidence: Binary64,
    pub cooldown_secs: u64,
    pub consecutive_threshold: u32,
    pub resolve_consecutive_threshold: u32,
    pub freezes_baseline: bool,
}

/// Emergency thresholds of one protocol.
#[derive(Debug)]
pub struct EmergencyThresholdConfig {
    /// `icmp`, `tcp`, `udp`, `ipv6` or `other`.
    pub proto: String,
    pub max_pps: Option<Binary64>,
    pub max_bps: Option<Binary64>,
}

/// Parameters of SYN-flood detection.
#[derive(Debug, Clone, Copy)]
pub struct SynFloodConfig {
    pub max_syn_pps: Option<Binary64>,
    pub top_n: Option<usize>,
    pub cooldown_secs: Option<u64>,
    pub consecutive_threshold: Option<u32>,
    pub resolve_consecutive_threshold: Option<u32>,
}

/// Parameters of port-scan detection.
#[derive(Debug, Clone, Copy)]
pub struct PortScanConfig {
    pub max_distinct_ports: Option<u32>,
    pub window_secs: Option<u64>,
    pub top_n: Option<usize>,
    pub cooldown_secs: Option<u64>,
    pub consecutive_threshold: Option<u32>,
    pub resolve_consecutive_threshold: Option<u32>,
}

/// Where alerts are pushed to.
#[derive(Debug)]
pub struct AlertmanagerConfig {
    pub enabled: Option<bool>,
    pub url: Option<String>,
    pub timeout_secs: Option<u64>,
    pub generator_url: Option<String>,
}

/// Baseline parameters in effect.
#[derive(Debug, Clone, Copy)]
pub struct ResolvedBaselineConfig {
    pub alpha: Binary64,
    pub min_samples: u64,
    pub min_stddev: Binary64,
    pub min_elapsed_secs: u64,
}

/// An alert rule in effect.
#[derive(Debug, Clone, Copy)]
pub struct ResolvedAlertRuleConfig {
    pub kind: &'static str,
    pub min_level: &'static str,
    pub min_confidence: Binary64,
    pub cooldown_secs: u64,
    pub consecutive_threshold: u32,
    pub resolve_consecutive_threshold: u32,
    pub freezes_baseline: bool,
}

/// Emergency thresholds in effect.
#[derive(Debug)]
pub struct ResolvedEmergencyThresholdConfig {
    /// The protocol's name, in lowercase.
    pub proto: String,
    pub max_pps: Option<Binary64>,
    pub max_bps: Option<Binary64>,
}

/// SYN-flood parameters in effect.
#[derive(Debug, Clone, Copy)]
pub struct ResolvedSynFloodConfig {
    pub max_syn_pps: Binary64,
    pub top_n: usize,
    pub cooldown_secs: u64,
    pub consecutive_threshold: u32,
    pub resolve_consecutive_threshold: u32,
}

/// Port-scan parameters in effect.
#[derive(Debug, Clone, Copy)]
pub struct ResolvedPortScanConfig {
    pub max_distinct_ports: u32,
    pub window_secs: u64,
    pub top_n: usize,
    pub cooldown_secs: u64,
    pub consecutive_threshold: u32,
    pub resolve_consecutive_threshold: u32,
}

/// Where alerts are pushed to, in effect.
#[derive(Debug)]
pub struct ResolvedAlertmanagerConfig {
    pub enabled: bool,
    pub url: Option<String>,
    pub timeout_secs: u64,
    pub generator_url: Option<String>,
}

impl ResolvedAlertmanagerConfig {
    /// Pushing is enabled only with an address to push to.
    pub open spec fn wf(&self) -> bool {
        self.enabled ==> self.url is Some
    }
}

/// The configuration in effect.
#[derive(Debug)]
pub struct ResolvedConfig {
    pub baseline: ResolvedBaselineConfig,
    pub alert_rules: Vec<ResolvedAlertRuleConfig>,
    pub emergency_thresholds: Vec<ResolvedEmergencyThresholdConfig>,
    pub syn_flood: ResolvedSynFloodConfig,
    pub port_scan: ResolvedPortScanConfig,
    pub alertmanager: ResolvedAlertmanagerConfig,
}

/// All detectors and alert managers.
pub struct ResolvedDetectors {
    pub baseline: EwmaEstimator,
    pub emergency: EmergencyDetector,
    pub alert_rules: Vec<AlertRule>,
    pub synflood_detector: SynFloodDetector,
    pub synflood_alert_manager: SynFloodAlertManager,
    pub port_scan_detector: PortScanDetector,
    pub port_scan_alert_manager: PortScanAlertManager,
}

/// What is wrong with a configuration. `text` is the word in question, in lowercase.
#[derive(Debug, PartialEq, Eq)]
pub enum ConfigError {
    /// The level of the alert rule at this position is none.
    UnknownLevel { rule: usize, text: String },
    /// The kind of the alert rule at this position is none.
    UnknownKind { rule: usize, text: String },
    /// The protocol of the emergency threshold at this position is none.
    UnknownProto { threshold: usize, text: String },
    /// Pushing is enabled without an address to push to.
    MissingUrl,
}

/// What an error says.
pub ghost enum ConfigFault {
    UnknownLevel { rule: int, text: Seq<char> },
    UnknownKind { rule: int, text: Seq<char> },
    UnknownProto { threshold: int, text: Seq<char> },
    MissingUrl,
}

impl View for ConfigError {
    type V = ConfigFault;

    open spec fn view(&self) -> ConfigFault {
        match self {
            ConfigError::UnknownLevel { rule, text } => ConfigFault::UnknownLevel {
                rule: *rule as int,
                text: text@,
            },
            ConfigError::UnknownKind { rule, text } => ConfigFault::UnknownKind {
                rule: *rule as int,
                text: text@,
            },
            ConfigError::UnknownProto { threshold, text } => ConfigFault::UnknownProto {
                threshold: *threshold as int,
                text: text@,
            },
            ConfigError::MissingUrl => ConfigFault::MissingUrl,
        }
    }
}

/// A word that does not name what it should. `text` is the word in lowercase.
#[derive(Debug)]
pub struct UnknownName {
    pub text: String,
}

/// The level that `s` names, in upper or lower case.
pub open spec fn named_level(s: Seq<char>) -> Option<AnomalyLevel> {
    if lower(s) == "normal"@ {
        Some(AnomalyLevel::Normal)
    } else if lower(s) == "suspicious"@ {
        Some(AnomalyLevel::Suspicious)
    } else if lower(s) == "severe"@ {
        Some(AnomalyLevel::Severe)
    } else {
        None
    }
}

/// The kind that `s` names, in upper or lower case.
pub open spec fn named_kind(s: Seq<char>) -> Option<AlertKind> {
    if lower(s) == "spike"@ {
        Some(AlertKind::Spike)
    } else if lower(s) == "drop"@ {
        Some(AlertKind::Drop)
    } else if lower(s) == "emergency"@ {
        Some(AlertKind::Emergency)
    } else {
        None
    }
}

/// The protocol that `s` names, in upper or lower case.
pub open spec fn named_proto(s: Seq<char>) -> Option<ProtoIndex> {
    if lower(s) == "icmp"@ {
        Some(ProtoIndex::Icmp)
    } else if lower(s) == "tcp"@ {
        Some(ProtoIndex::Tcp)
    } else if lower(s) == "udp"@ {
        Some(ProtoIndex::Udp)
    } else if lower(s) == "ipv6"@ {
        Some(ProtoIndex::Ipv6)
    } else if lower(s) == "other"@ {
        Some(ProtoIndex::Other)
    } else {
        None
    }
}

fn is_word(s: &String, word: &str) -> (r: bool)
    ensures
        r == (s@ == word@),
{
    *s == word.to_owned()
}

/// The level that `s` names, in upper or lower case.
pub fn parse_anomaly_level(s: &str) -> (r: Result<AnomalyLevel, UnknownName>)
    ensures
        match r {
            Ok(level) => named_level(s@) == Some(level),
            Err(e) => named_level(s@) is None && e.text@ == lower(s@),
        },
{
    let word: String = s.to_ascii_lowercase();
    if is_word(&word, "normal") {
        Ok(AnomalyLevel::Normal)
    } else if is_word(&word, "suspicious") {
        Ok(AnomalyLevel::Suspicious)
    } else if is_word(&word, "severe") {
        Ok(AnomalyLevel::Severe)
    } else {
        Err(UnknownName { text: word })
    }
}

/// The kind that `s` names, in upper or lower case.
pub fn parse_alert_kind(s: &str) -> (r: Result<AlertKind, UnknownName>)
    ensures
        match r {
            Ok(kind) => named_kind(s@) == Some(kind),
            Err(e) => named_kind(s@) is None && e.text@ == lower(s@),
        },
{
    let word: String = s.to_ascii_lowercase();
    if is_word(&word, "spike") {
        Ok(AlertKind::Spike)
    } else if is_word(&word, "drop") {
        Ok(AlertKind::Drop)
    } else if is_word(&word, "emergency") {
        Ok(AlertKind::Emergency)
    } else {
        Err(UnknownName { text: word })
    }
}

/// The protocol that `s` names, in upper or lower case.
pub fn parse_proto_index(s: &str) -> (r: Result<ProtoIndex, UnknownName>)
    ensures
        match r {
            Ok(proto) => named_proto(s@) == Some(proto),
            Err(e) => named_proto(s@) is None && e.text@ == lower(s@),
        },
{
    let word: String = s.to_ascii_lowercase();
    if is_word(&word, "icmp") {
        Ok(ProtoIndex::Icmp)
    } else if is_word(&word, "tcp") {
        Ok(ProtoIndex::Tcp)
    } else if is_word(&word, "udp") {
        Ok(ProtoIndex::Udp)
    } else if is_word(&word, "ipv6") {
        Ok(ProtoIndex::Ipv6)
    } else if is_word(&word, "other") {
        Ok(ProtoIndex::Other)
    } else {
        Err(UnknownName { text: word })
    }
}

/// `given`, or `default` where nothing is given.
pub open spec fn given_or<T>(given: Option<T>, default: T) -> T {
    match given {
        Some(v) => v,
        None => default,
    }
}

/// The baseline parameters that a configuration comes to.
pub open spec fn resolved_baseline(cfg: Option<BaselineConfig>) -> ResolvedBaselineConfig {
    let c = given_or(
        cfg,
        BaselineConfig {
            alpha: None,
            min_samples: None,
            min_stddev: None,
            min_elapsed_secs: None,
        },
    );
    ResolvedBaselineConfig {
        alpha: given_or(c.alpha, Binary64::two_fifths()),
        min_samples: given_or(c.min_samples, 5),
        min_stddev: given_or(c.min_stddev, Binary64::thousandth()),
        min_elapsed_secs: given_or(c.min_elapsed_secs, 120),
    }
}

/// The number of whole intervals that cover `secs` seconds.
pub open spec fn ticks_for(secs: u64) -> nat {
    (secs as nat + 29) / 30
}

/// Whether `e` is a baseline that has seen nothing, with these parameters.
pub open spec fn is_fresh_estimator(e: EwmaEstimator, p: ResolvedBaselineConfig) -> bool {
    let fresh = Ewma {
        alpha: p.alpha,
        mean: Binary64::zero(),
        variance: Binary64::zero(),
        mad: Binary64::zero(),
        samples: 0,
    };
    &&& forall|proto: ProtoIndex| (#[trigger] e.pps_ewma.at(proto)) == fresh
    &&& forall|proto: ProtoIndex| (#[trigger] e.bps_ewma.at(proto)) == fresh
    &&& e.min_samples == p.min_samples
    &&& e.min_stddev == p.min_stddev
    &&& e.min_elapsed_ticks == ticks_for(p.min_elapsed_secs)
    &&& e.elapsed_ticks == 0
}

/// The baseline that a configuration asks for, and its parameters.
pub fn build_estimator(baseline: Option<BaselineConfig>) -> (r: (
    EwmaEstimator,
    ResolvedBaselineConfig,
))
    ensures
        r.1 == resolved_baseline(baseline),
        is_fresh_estimator(r.0, r.1),
{
    let cfg = match baseline {
        Some(c) => c,
        None => BaselineConfig {
            alpha: None,
            min_samples: None,
            min_stddev: None,
            min_elapsed_secs: None,
        },
    };
    let alpha: Binary64 = cfg.alpha.unwrap_or(Binary64::two_fifths());
    let min_samples: u64 = cfg.min_samples.unwrap_or(5);
    let min_stddev: Binary64 = cfg.min_stddev.unwrap_or(Binary64::thousandth());
    let min_elapsed_secs: u64 = cfg.min_elapsed_secs.unwrap_or(120);
    let whole: u64 = min_elapsed_secs / ANOMALY_EVAL_INTERVAL_SECS;
    let ticks: u64 = if min_elapsed_secs % ANOMALY_EVAL_INTERVAL_SECS > 0 {
        whole + 1
    } else {
        whole
    };
    (
        EwmaEstimator::new(alpha, min_samples, min_stddev, ticks),
        ResolvedBaselineConfig { alpha, min_samples, min_stddev, min_elapsed_secs },
    )
}

/// Whether `rule` is what `cfg` says.
pub open spec fn is_rule(rule: AlertRule, cfg: AlertRuleConfig) -> bool {
    &&& named_kind(cfg.kind@) == Some(rule.kind)
    &&& named_level(cfg.min_level@) == Some(rule.min_level)
    &&& rule.min_confidence == cfg.min_confidence
    &&& rule.cooldown.nanos == cfg.cooldown_secs * 1_000_000_000
    &&& rule.consecutive_threshold == cfg.consecutive_threshold
    &&& rule.resolve_consecutive_threshold == cfg.resolve_consecutive_threshold
    &&& rule.freezes_baseline == cfg.freezes_baseline
}

/// Whether both names in `cfg` are known.
pub open spec fn rule_is_named(cfg: AlertRuleConfig) -> bool {
    named_kind(cfg.kind@) is Some && named_level(cfg.min_level@) is Some
}

/// The error, if any, of the first rule that is wrong.
pub open spec fn rules_error(rules: Seq<AlertRuleConfig>) -> Option<ConfigFault> {
    if exists|i: int| 0 <= i < rules.len() && !rule_is_named(#[trigger] rules[i]) {
        let i = first_bad_rule(rules, 0);
        if named_kind(rules[i].kind@) is None {
            Some(ConfigFault::UnknownKind { rule: i, text: lower(rules[i].kind@) })
        } else {
            Some(ConfigFault::UnknownLevel { rule: i, text: lower(rules[i].min_level@) })
        }
    } else {
        None
    }
}

/// The first position from `from` on whose rule is wrong.
pub open spec fn first_bad_rule(rules: Seq<AlertRuleConfig>, from: int) -> int
    decreases rules.len() - from,
{
    if from >= rules.len() || !rule_is_named(rules[from]) {
        from
    } else {
        first_bad_rule(rules, from + 1)
    }
}

/// The alert rules that a configuration asks for; the first one that is wrong is reported.
pub fn build_alert_rules(rules: &Vec<AlertRuleConfig>) -> (r: Result<Vec<AlertRule>, ConfigError>)
    ensures
        match r {
            Ok(built) => rules_error(rules@) is None && built@.len() == rules@.len() && forall|
                i: int,
            |
                0 <= i < built@.len() ==> is_rule(#[trigger] built@[i], rules@[i]),
            Err(e) => rules_error(rules@) == Some(e@),
        },
{
    let mut built: Vec<AlertRule> = Vec::new();
    let mut i: usize = 0;
    while i < rules.len()
        invariant
            i <= rules@.len(),
            built@.len() == i,
            forall|k: int| 0 <= k < i ==> rule_is_named(#[trigger] rules@[k]),
            forall|k: int| 0 <= k < i ==> is_rule(#[trigger] built@[k], rules@[k]),
            first_bad_rule(rules@, 0) == first_bad_rule(rules@, i as int),
        decreases rules@.len() - i,
    {
        let cfg = &rules[i];
        let kind = match parse_alert_kind(cfg.kind.as_str()) {
            Ok(k) => k,
            Err(e) => {
                assert(!rule_is_named(rules@[i as int]));
                return Err(ConfigError::UnknownKind { rule: i, text: e.text });
            },
        };
        let min_level = match parse_anomaly_level(cfg.min_level.as_str()) {
            Ok(l) => l,
            Err(e) => {
                assert(!rule_is_named(rules@[i as int]));
                return Err(ConfigError::UnknownLevel { rule: i, text: e.text });
            },
        };
        built.push(
            AlertRule {
                kind,
                min_level,
                min_confidence: cfg.min_confidence,
                cooldown: Duration::from_secs(cfg.cooldown_secs),
                consecutive_threshold: cfg.consecutive_threshold,
                resolve_consecutive_threshold: cfg.resolve_consecutive_threshold,
                freezes_baseline: cfg.freezes_baseline,
            },
        );
        i = i + 1;
    }
    Ok(built)
}

/// Whether `view` says what is in effect under `rule`.
pub open spec fn shows_rule(view: ResolvedAlertRuleConfig, rule: AlertRule) -> bool {
    &&& view.kind@ == rule.kind.label_spec()
    &&& view.min_level@ == rule.min_level.label_spec()
    &&& view.min_confidence == rule.min_confidence
    &&& view.cooldown_secs == rule.cooldown.as_secs_spec()
    &&& view.consecutive_threshold == rule.consecutive_threshold
    &&& view.resolve_consecutive_threshold == rule.resolve_consecutive_threshold
    &&& view.freezes_baseline == rule.freezes_baseline
}

/// What is in effect under `rule`.
pub fn resolve_alert_rule(rule: &AlertRule) -> (r: ResolvedAlertRuleConfig)
    ensures
        shows_rule(r, *rule),
{
    ResolvedAlertRuleConfig {
        kind: rule.kind.label(),
        min_level: rule.min_level.label(),
        min_confidence: rule.min_confidence,
        cooldown_secs: rule.cooldown.as_secs(),
        consecutive_threshold: rule.consecutive_threshold,
        resolve_consecutive_threshold: rule.resolve_consecutive_threshold,
        freezes_baseline: rule.freezes_baseline,
    }
}

/// What is in effect under `rules`.
pub fn resolve_alert_rules(rules: &Vec<AlertRule>) -> (r: Vec<ResolvedAlertRuleConfig>)
    ensures
        r@.len() == rules@.len(),
        forall|i: int| 0 <= i < r@.len() ==> shows_rule(#[trigger] r@[i], rules@[i]),
{
    let mut r: Vec<ResolvedAlertRuleConfig> = Vec::new();
    let mut i: usize = 0;
    while i < rules.len()
        invariant
            i <= rules@.len(),
            r@.len() == i,
            forall|k: int| 0 <= k < i ==> shows_rule(#[trigger] r@[k], rules@[k]),
        decreases rules@.len() - i,
    {
        r.push(resolve_alert_rule(&rules[i]));
        i = i + 1;
    }
    r
}

/// Whether `t` is what `cfg` says.
pub open spec fn is_threshold(t: EmergencyThreshold, cfg: EmergencyThresholdConfig) -> bool {
    &&& named_proto(cfg.proto@) == Some(t.proto)
    &&& t.max_pps == cfg.max_pps
    &&& t.max_bps == cfg.max_bps
}

/// The first position from `from` on whose protocol is none.
pub open spec fn first_bad_threshold(
    thresholds: Seq<EmergencyThresholdConfig>,
    from: int,
) -> int
    decreases thresholds.len() - from,
{
    if from >= thresholds.len() || named_proto(thresholds[from].proto@) is None {
        from
    } else {
        first_bad_threshold(thresholds, from + 1)
    }
}

/// Whether `view` says what is in effect under `t`.
pub open spec fn shows_threshold(
    view: ResolvedEmergencyThresholdConfig,
    t: EmergencyThreshold,
) -> bool {
    &&& view.proto@ == lower(t.proto.label_spec())
    &&& view.max_pps == t.max_pps
    &&& view.max_bps == t.max_bps
}

/// What is in effect under `ts`.
pub fn resolve_emergency_thresholds(ts: &Vec<EmergencyThreshold>) -> (r: Vec<
    ResolvedEmergencyThresholdConfig,
>)
    ensures
        r@.len() == ts@.len(),
        forall|i: int| 0 <= i < r@.len() ==> shows_threshold(#[trigger] r@[i], ts@[i]),
{
    let mut r: Vec<ResolvedEmergencyThresholdConfig> = Vec::new();
    let mut i: usize = 0;
    while i < ts.len()
        invariant
            i <= ts@.len(),
            r@.len() == i,
            forall|k: int| 0 <= k < i ==> shows_threshold(#[trigger] r@[k], ts@[k]),
        decreases ts@.len() - i,
    {
        let t = &ts[i];
        r.push(
            ResolvedEmergencyThresholdConfig {
                proto: t.proto.label().to_ascii_lowercase(),
                max_pps: t.max_pps,
                max_bps: t.max_bps,
            },
        );
        i = i + 1;
    }
    r
}

/// Whether `views` say what is in effect under `ts`.
pub open spec fn shows_thresholds(
    views: Seq<ResolvedEmergencyThresholdConfig>,
    ts: Seq<EmergencyThreshold>,
) -> bool {
    &&& views.len() == ts.len()
    &&& forall|i: int| 0 <= i < views.len() ==> shows_threshold(#[trigger] views[i], ts[i])
}

/// The emergency detector that a configuration asks for, and its thresholds; the first one
/// that is wrong is reported.
pub fn build_emergency_detector(thresholds: &Vec<EmergencyThresholdConfig>) -> (r: Result<
    (EmergencyDetector, Vec<ResolvedEmergencyThresholdConfig>),
    ConfigError,
>)
    ensures
        match r {
            Ok((detector, views)) => {
                &&& first_bad_threshold(thresholds@, 0) == thresholds@.len()
                &&& detector.thresholds().len() == thresholds@.len()
                &&& forall|i: int|
                    0 <= i < thresholds@.len() ==> is_threshold(
                        #[trigger] detector.thresholds()[i],
                        thresholds@[i],
                    )
                &&& shows_thresholds(views@, detector.thresholds())
            },
            Err(e) => {
                let i = first_bad_threshold(thresholds@, 0);
                i < thresholds@.len() && e@ == (ConfigFault::UnknownProto {
                    threshold: i,
                    text: lower(thresholds@[i].proto@),
                })
            },
        },
{
    let mut ts: Vec<EmergencyThreshold> = Vec::new();
    let mut i: usize = 0;
    while i < thresholds.len()
        invariant
            i <= thresholds@.len(),
            ts@.len() == i,
            forall|k: int| 0 <= k < i ==> is_threshold(#[trigger] ts@[k], thresholds@[k]),
            first_bad_threshold(thresholds@, 0) == first_bad_threshold(thresholds@, i as int),
        decreases thresholds@.len() - i,
    {
        let cfg = &thresholds[i];
        let proto = match parse_proto_index(cfg.proto.as_str()) {
            Ok(p) => p,
            Err(e) => {
                return Err(ConfigError::UnknownProto { threshold: i, text: e.text });
            },
        };
        ts.push(EmergencyThreshold { proto, max_pps: cfg.max_pps, max_bps: cfg.max_bps });
        i = i + 1;
    }
    let views = resolve_emergency_thresholds(&ts);
    Ok((EmergencyDetector::new(ts), views))
}

/// The SYN-flood parameters that a configuration comes to.
pub open spec fn resolved_syn_flood(cfg: Option<SynFloodConfig>) -> ResolvedSynFloodConfig {
    let c = given_or(
        cfg,
        SynFloodConfig {
            max_syn_pps: None,
            top_n: None,
            cooldown_secs: None,
            consecutive_threshold: None,
            resolve_consecutive_threshold: None,
        },
    );
    ResolvedSynFloodConfig {
        max_syn_pps: given_or(c.max_syn_pps, Binary64::hundred()),
        top_n: given_or(c.top_n, 10),
        cooldown_secs: given_or(c.cooldown_secs, 60),
        consecutive_threshold: given_or(c.consecutive_threshold, 3),
        resolve_consecutive_threshold: given_or(c.resolve_consecutive_threshold, 3),
    }
}

/// The state-machine parameters of a cooldown in seconds and two thresholds.
pub open spec fn timing_of(cooldown_secs: u64, consecutive: u32, resolve: u32) -> AlertTiming {
    AlertTiming {
        cooldown: Duration { nanos: (cooldown_secs * 1_000_000_000) as u128 },
        consecutive_threshold: consecutive,
        resolve_consecutive_threshold: resolve,
    }
}

/// The SYN-flood detector and alert manager that a configuration asks for, and their
/// parameters.
pub fn build_synflood(cfg: Option<SynFloodConfig>) -> (r: (
    SynFloodDetector,
    SynFloodAlertManager,
    ResolvedSynFloodConfig,
))
    ensures
        r.2 == resolved_syn_flood(cfg),
        r.0 == (SynFloodDetector { max_syn_pps: r.2.max_syn_pps, top_n: r.2.top_n }),
        r.1.wf(),
        r.1.slots().len() == 0,
        r.1.timing() == timing_of(
            r.2.cooldown_secs,
            r.2.consecutive_threshold,
            r.2.resolve_consecutive_threshold,
        ),
{
    let c = match cfg {
        Some(c) => c,
        None => SynFloodConfig {
            max_syn_pps: None,
            top_n: None,
            cooldown_secs: None,
            consecutive_threshold: None,
            resolve_consecutive_threshold: None,
        },
    };
    let max_syn_pps: Binary64 = c.max_syn_pps.unwrap_or(Binary64::hundred());
    let top_n: usize = c.top_n.unwrap_or(10);
    let cooldown_secs: u64 = c.cooldown_secs.unwrap_or(60);
    let consecutive_threshold: u32 = c.consecutive_threshold.unwrap_or(3);
    let resolve_consecutive_threshold: u32 = c.resolve_consecutive_threshold.unwrap_or(3);
    (
        SynFloodDetector::new(max_syn_pps, top_n),
        SynFloodAlertManager::new(
            Duration::from_secs(cooldown_secs),
            consecutive_threshold,
            resolve_consecutive_threshold,
        ),
        ResolvedSynFloodConfig {
            max_syn_pps,
            top_n,
            cooldown_secs,
            consecutive_threshold,
            resolve_consecutive_threshold,
        },
    )
}

/// The port-scan parameters that a configuration comes to.
pub open spec fn resolved_port_scan(cfg: Option<PortScanConfig>) -> ResolvedPortScanConfig {
    let c = given_or(
        cfg,
        PortScanConfig {
            max_distinct_ports: None,
            window_secs: None,
            top_n: None,
            cooldown_secs: None,
            consecutive_threshold: None,
            resolve_consecutive_threshold: None,
        },
    );
    ResolvedPortScanConfig {
        max_distinct_ports: given_or(c.max_distinct_ports, 20),
        window_secs: given_or(c.window_secs, 30),
        top_n: given_or(c.top_n, 10),
        cooldown_secs: given_or(c.cooldown_secs, 60),
        consecutive_threshold: given_or(c.consecutive_threshold, 3),
        resolve_consecutive_threshold: given_or(c.resolve_consecutive_threshold, 3),
    }
}

/// The port-scan detector and alert manager that a configuration asks for, and their
/// parameters. The window is kept in 64 bits of nanoseconds, and wraps beyond them.
pub fn build_port_scan(cfg: Option<PortScanConfig>) -> (r: (
    PortScanDetector,
    PortScanAlertManager,
    ResolvedPortScanConfig,
))
    ensures
        r.2 == resolved_port_scan(cfg),
        r.0.max_distinct_ports == r.2.max_distinct_ports,
        r.0.top_n == r.2.top_n,
        r.0.window_ns == (r.2.window_secs * 1_000_000_000) % 0x1_0000_0000_0000_0000,
        r.1.wf(),
        r.1.slots().len() == 0,
        r.1.timing() == timing_of(
            r.2.cooldown_secs,
            r.2.consecutive_threshold,
            r.2.resolve_consecutive_threshold,
        ),
{
    let c = match cfg {
        Some(c) => c,
        None => PortScanConfig {
            max_distinct_ports: None,
            window_secs: None,
            top_n: None,
            cooldown_secs: None,
            consecutive_threshold: None,
            resolve_consecutive_threshold: None,
        },
    };
    let max_distinct_ports: u32 = c.max_distinct_ports.unwrap_or(20);
    let window_secs: u64 = c.window_secs.unwrap_or(30);
    let top_n: usize = c.top_n.unwrap_or(10);
    let cooldown_secs: u64 = c.cooldown_secs.unwrap_or(60);
    let consecutive_threshold: u32 = c.consecutive_threshold.unwrap_or(3);
    let resolve_consecutive_threshold: u32 = c.resolve_consecutive_threshold.unwrap_or(3);
    let window_ns: u64 = window_secs.wrapping_mul(1_000_000_000);
    (
        PortScanDetector::new(max_distinct_ports, top_n, window_ns),
        PortScanAlertManager::new(
            Duration::from_secs(cooldown_secs),
            consecutive_threshold,
            resolve_consecutive_threshold,
        ),
        ResolvedPortScanConfig {
            max_distinct_ports,
            window_secs,
            top_n,
            cooldown_secs,
            consecutive_threshold,
            resolve_consecutive_threshold,
        },
    )
}

/// Whether two optional texts are the same.
pub open spec fn same_text(a: Option<String>, b: Option<String>) -> bool {
    match (a, b) {
        (Some(x), Some(y)) => x@ == y@,
        (None, None) => true,
        _ => false,
    }
}

/// Whether pushing is asked for.
pub open spec fn asks_for_push(cfg: Option<AlertmanagerConfig>) -> bool {
    cfg matches Some(c) && c.enabled == Some(true)
}

/// Where alerts are to be pushed to. Pushing is off unless asked for, and cannot be asked for
/// without an address.
pub fn build_alertmanager(cfg: Option<AlertmanagerConfig>) -> (r: Result<
    ResolvedAlertmanagerConfig,
    ConfigError,
>)
    ensures
        match r {
            Ok(a) => {
                &&& a.wf()
                &&& a.enabled == asks_for_push(cfg)
                &&& match cfg {
                    Some(c) => {
                        &&& same_text(a.url, c.url)
                        &&& a.timeout_secs == given_or(c.timeout_secs, 5)
                        &&& same_text(a.generator_url, c.generator_url)
                    },
                    None => a.url is None && a.timeout_secs == 5 && a.generator_url is None,
                }
            },
            Err(e) => asks_for_push(cfg) && cfg->0.url is None && e@ == ConfigFault::MissingUrl,
        },
{
    match cfg {
        Some(c) => {
            let enabled: bool = c.enabled.unwrap_or(false);
            if enabled && c.url.is_none() {
                return Err(ConfigError::MissingUrl);
            }
            Ok(
                ResolvedAlertmanagerConfig {
                    enabled,
                    url: c.url,
                    timeout_secs: c.timeout_secs.unwrap_or(5),
                    generator_url: c.generator_url,
                },
            )
        },
        None => Ok(
            ResolvedAlertmanagerConfig {
                enabled: false,
                url: None,
                timeout_secs: 5,
                generator_url: None,
            },
        ),
    }
}

/// The alert rules that hold where none are configured: a spike of suspicious level fires
/// after five ticks and freezes the baseline, an emergency fires at once.
pub open spec fn default_rules() -> Seq<AlertRule> {
    seq![
        AlertRule {
            kind: AlertKind::Spike,
            min_level: AnomalyLevel::Suspicious,
            min_confidence: Binary64::three_fifths(),
            cooldown: Duration { nanos: 120_000_000_000 },
            consecutive_threshold: 5,
            resolve_consecutive_threshold: 3,
            freezes_baseline: true,
        },
        AlertRule {
            kind: AlertKind::Emergency,
            min_level: AnomalyLevel::Severe,
            min_confidence: Binary64::zero(),
            cooldown: Duration { nanos: 60_000_000_000 },
            consecutive_threshold: 1,
            resolve_consecutive_threshold: 1,
            freezes_baseline: false,
        },
    ]
}

/// The alert rules that hold where none are configured.
pub fn default_alert_rules() -> (r: Vec<AlertRule>)
    ensures
        r@ == default_rules(),
{
    let mut r: Vec<AlertRule> = Vec::new();
    r.push(
        AlertRule {
            kind: AlertKind::Spike,
            min_level: AnomalyLevel::Suspicious,
            min_confidence: Binary64::three_fifths(),
            cooldown: Duration::from_secs(120),
            consecutive_threshold: 5,
            resolve_consecutive_threshold: 3,
            freezes_baseline: true,
        },
    );
    r.push(
        AlertRule {
            kind: AlertKind::Emergency,
            min_level: AnomalyLevel::Severe,
            min_confidence: Binary64::zero(),
            cooldown: Duration::from_secs(60),
            consecutive_threshold: 1,
            resolve_consecutive_threshold: 1,
            freezes_baseline: false,
        },
    );
    proof {
        assert(r@ =~= default_rules());
    }
    r
}

/// The emergency thresholds that hold where none are configured: three ICMP packets per
/// second.
pub open spec fn default_thresholds() -> Seq<EmergencyThreshold> {
    seq![
        EmergencyThreshold {
            proto: ProtoIndex::Icmp,
            max_pps: Some(Binary64::three()),
            max_bps: None,
        },
    ]
}

/// The emergency thresholds that hold where none are configured.
pub fn default_emergency_thresholds() -> (r: Vec<EmergencyThreshold>)
    ensures
        r@ == default_thresholds(),
{
    let mut r: Vec<EmergencyThreshold> = Vec::new();
    r.push(
        EmergencyThreshold {
            proto: ProtoIndex::Icmp,
            max_pps: Some(Binary64::three()),
            max_bps: None,
        },
    );
    proof {
        assert(r@ =~= default_thresholds());
    }
    r
}

/// The baseline that holds where nothing is configured.
pub fn default_baseline_estimator() -> (r: EwmaEstimator)
    ensures
        is_fresh_estimator(r, resolved_baseline(None)),
{
    build_estimator(None).0
}

/// The emergency detector that holds where nothing is configured.
pub fn default_emergency_detector() -> (r: EmergencyDetector)
    ensures
        r.thresholds() == default_thresholds(),
{
    EmergencyDetector::new(default_emergency_thresholds())
}

/// The SYN-flood detector that holds where nothing is configured.
pub fn default_synflood_detector() -> (r: SynFloodDetector)
    ensures
        r == (SynFloodDetector { max_syn_pps: Binary64::hundred(), top_n: 10 }),
{
    build_synflood(None).0
}

/// The SYN-flood alert manager that holds where nothing is configured.
pub fn default_synflood_alert_manager() -> (r: SynFloodAlertManager)
    ensures
        r.wf(),
        r.slots().len() == 0,
        r.timing() == timing_of(60, 3, 3),
{
    build_synflood(None).1
}

/// The port-scan detector that holds where nothing is configured.
pub fn default_port_scan_detector() -> (r: PortScanDetector)
    ensures
        r == (PortScanDetector {
            max_distinct_ports: 20,
            top_n: 10,
            window_ns: 30_000_000_000,
        }),
{
    build_port_scan(None).0
}

/// The port-scan alert manager that holds where nothing is configured.
pub fn default_port_scan_alert_manager() -> (r: PortScanAlertManager)
    ensures
        r.wf(),
        r.slots().len() == 0,
        r.timing() == timing_of(60, 3, 3),
{
    build_port_scan(None).1
}

/// Whether `r` is what is in effect where nothing is configured.
pub open spec fn is_default_config(r: ResolvedConfig) -> bool {
    &&& r.baseline == resolved_baseline(None)
    &&& r.alert_rules@.len() == default_rules().len()
    &&& forall|i: int|
        0 <= i < r.alert_rules@.len() ==> shows_rule(
            #[trigger] r.alert_rules@[i],
            default_rules()[i],
        )
    &&& shows_thresholds(r.emergency_thresholds@, default_thresholds())
    &&& r.syn_flood == resolved_syn_flood(None)
    &&& r.port_scan == resolved_port_scan(None)
    &&& !r.alertmanager.enabled
    &&& r.alertmanager.url is None
    &&& r.alertmanager.timeout_secs == 5
    &&& r.alertmanager.generator_url is None
}

/// What is in effect where nothing is configured.
pub fn default_resolved_config() -> (r: ResolvedConfig)
    ensures
        is_default_config(r),
{
    ResolvedConfig {
        baseline: build_estimator(None).1,
        alert_rules: resolve_alert_rules(&default_alert_rules()),
        emergency_thresholds: resolve_emergency_thresholds(&default_emergency_thresholds()),
        syn_flood: build_synflood(None).2,
        port_scan: build_port_scan(None).2,
        alertmanager: ResolvedAlertmanagerConfig {
            enabled: false,
            url: None,
            timeout_secs: 5,
            generator_url: None,
        },
    }
}

/// The error, if any, that `cfg` is reported with: a wrong threshold first, then a wrong rule,
/// then a missing address.
pub open spec fn config_error(cfg: Config) -> Option<ConfigFault> {
    let i = first_bad_threshold(cfg.emergency_thresholds@, 0);
    if i < cfg.emergency_thresholds@.len() {
        Some(
            ConfigFault::UnknownProto {
                threshold: i,
                text: lower(cfg.emergency_thresholds@[i].proto@),
            },
        )
    } else if rules_error(cfg.alert_rules@) is Some {
        rules_error(cfg.alert_rules@)
    } else if asks_for_push(cfg.alertmanager) && cfg.alertmanager->0.url is None {
        Some(ConfigFault::MissingUrl)
    } else {
        None
    }
}

/// Whether the detectors and the parameters shown are both what `cfg` asks for.
pub open spec fn is_loaded(cfg: Config, detectors: ResolvedDetectors, view: ResolvedConfig) -> bool {
    &&& view.baseline == resolved_baseline(cfg.baseline)
    &&& is_fresh_estimator(detectors.baseline, view.baseline)
    &&& if cfg.emergency_thresholds@.len() == 0 {
        detectors.emergency.thresholds() == default_thresholds()
    } else {
        &&& detectors.emergency.thresholds().len() == cfg.emergency_thresholds@.len()
        &&& forall|i: int|
            0 <= i < cfg.emergency_thresholds@.len() ==> is_threshold(
                #[trigger] detectors.emergency.thresholds()[i],
                cfg.emergency_thresholds@[i],
            )
    }
    &&& shows_thresholds(view.emergency_thresholds@, detectors.emergency.thresholds())
    &&& if cfg.alert_rules@.len() == 0 {
        detectors.alert_rules@ == default_rules()
    } else {
        &&& detectors.alert_rules@.len() == cfg.alert_rules@.len()
        &&& forall|i: int|
            0 <= i < cfg.alert_rules@.len() ==> is_rule(
                #[trigger] detectors.alert_rules@[i],
                cfg.alert_rules@[i],
            )
    }
    &&& view.alert_rules@.len() == detectors.alert_rules@.len()
    &&& forall|i: int|
        0 <= i < view.alert_rules@.len() ==> shows_rule(
            #[trigger] view.alert_rules@[i],
            detectors.alert_rules@[i],
        )
    &&& view.syn_flood == resolved_syn_flood(cfg.syn_flood)
    &&& view.port_scan == resolved_port_scan(cfg.port_scan)
    &&& shows_detectors(detectors, view)
    &&& view.alertmanager.wf()
    &&& view.alertmanager.enabled == asks_for_push(cfg.alertmanager)
    &&& view.alertmanager.timeout_secs == (match cfg.alertmanager {
        Some(a) => given_or(a.timeout_secs, 5),
        None => 5,
    })
    &&& same_text(
        view.alertmanager.url,
        match cfg.alertmanager {
            Some(a) => a.url,
            None => None,
        },
    )
    &&& same_text(
        view.alertmanager.generator_url,
        match cfg.alertmanager {
            Some(a) => a.generator_url,
            None => None,
        },
    )
}

/// Whether the per-address detectors and alert managers have the parameters shown.
pub open spec fn shows_detectors(detectors: ResolvedDetectors, view: ResolvedConfig) -> bool {
    &&& detectors.synflood_detector == (SynFloodDetector {
        max_syn_pps: view.syn_flood.max_syn_pps,
        top_n: view.syn_flood.top_n,
    })
    &&& detectors.synflood_alert_manager.slots().len() == 0
    &&& detectors.synflood_alert_manager.timing() == timing_of(
        view.syn_flood.cooldown_secs,
        view.syn_flood.consecutive_threshold,
        view.syn_flood.resolve_consecutive_threshold,
    )
    &&& detectors.port_scan_detector.max_distinct_ports == view.port_scan.max_distinct_ports
    &&& detectors.port_scan_detector.top_n == view.port_scan.top_n
    &&& detectors.port_scan_detector.window_ns == (view.port_scan.window_secs * 1_000_000_000)
        % 0x1_0000_0000_0000_0000
    &&& detectors.port_scan_alert_manager.slots().len() == 0
    &&& detectors.port_scan_alert_manager.timing() == timing_of(
        view.port_scan.cooldown_secs,
        view.port_scan.consecutive_threshold,
        view.port_scan.resolve_consecutive_threshold,
    )
}

/// Builds everything that a configuration asks for, with defaults for what it leaves out.
pub fn load_config(cfg: Config) -> (r: Result<(ResolvedDetectors, ResolvedConfig), ConfigError>)
    ensures
        match r {
            Ok((detectors, view)) => config_error(cfg) is None && is_loaded(cfg, detectors, view),
            Err(e) => config_error(cfg) == Some(e@),
        },
{
    let (estimator, resolved_baseline) = build_estimator(cfg.baseline);
    let (emergency, resolved_thresholds) = if cfg.emergency_thresholds.len() == 0 {
        (
            default_emergency_detector(),
            resolve_emergency_thresholds(&default_emergency_thresholds()),
        )
    } else {
        match build_emergency_detector(&cfg.emergency_thresholds) {
            Ok(built) => built,
            Err(e) => {
                return Err(e);
            },
        }
    };
    let rules: Vec<AlertRule> = if cfg.alert_rules.len() == 0 {
        default_alert_rules()
    } else {
        match build_alert_rules(&cfg.alert_rules) {
            Ok(built) => built,
            Err(e) => {
                return Err(e);
            },
        }
    };
    let resolved_rules = resolve_alert_rules(&rules);
    let (synflood_detector, synflood_alert_manager, resolved_synflood) = build_synflood(
        cfg.syn_flood,
    );
    let (port_scan_detector, port_scan_alert_manager, resolved_port_scan) = build_port_scan(
        cfg.port_scan,
    );
    let alertmanager = match build_alertmanager(cfg.alertmanager) {
        Ok(a) => a,
        Err(e) => {
            return Err(e);
        },
    };
    let view = ResolvedConfig {
        baseline: resolved_baseline,
        alert_rules: resolved_rules,
        emergency_thresholds: resolved_thresholds,
        syn_flood: resolved_synflood,
        port_scan: resolved_port_scan,
        alertmanager,
    };
    let detectors = ResolvedDetectors {
        baseline: estimator,
        emergency,
        alert_rules: rules,
        synflood_detector,
        synflood_alert_manager,
        port_scan_detector,
        port_scan_alert_manager,
    };
    Ok((detectors, view))
}

/// Builds everything that a configuration asks for, or the defaults without one.
pub fn resolve_all(cfg: Option<Config>) -> (r: Result<
    (ResolvedDetectors, ResolvedConfig),
    ConfigError,
>)
    ensures
        match (cfg, r) {
            (Some(c), Ok((detectors, view))) => config_error(c) is None && is_loaded(
                c,
                detectors,
                view,
            ),
            (Some(c), Err(e)) => config_error(c) == Some(e@),
            (None, Ok((detectors, view))) => {
                &&& is_default_config(view)
                &&& is_fresh_estimator(detectors.baseline, view.baseline)
                &&& detectors.emergency.thresholds() == default_thresholds()
                &&& detectors.alert_rules@ == default_rules()
                &&& shows_detectors(detectors, view)
            },
            (None, Err(_)) => false,
        },
{
    match cfg {
        Some(c) => load_config(c),
        None => Ok(
            (
                ResolvedDetectors {
                    baseline: default_baseline_estimator(),
                    emergency: default_emergency_detector(),
                    alert_rules: default_alert_rules(),
                    synflood_detector: default_synflood_detector(),
                    synflood_alert_manager: default_synflood_alert_manager(),
                    port_scan_detector: default_port_scan_detector(),
                    port_scan_alert_manager: default_port_scan_alert_manager(),
                },
                default_resolved_config(),
            ),
        ),
    }
}

/// The name of a level, of a kind or of a protocol, as it is shown, is read back as what it
/// names.
pub proof fn law_names_are_read_back(level: AnomalyLevel, kind: AlertKind, proto: ProtoIndex)
    ensures
        named_level(level.label_spec()) == Some(level),
        named_kind(kind.label_spec()) == Some(kind),
        named_proto(lower(proto.label_spec())) == Some(proto),
        named_proto(proto.label_spec()) == Some(proto),
{
    lemma_words();
    lemma_lower_stays("normal"@);
    lemma_lower_stays("suspicious"@);
    lemma_lower_stays("severe"@);
    lemma_lower_stays("spike"@);
    lemma_lower_stays("drop"@);
    lemma_lower_stays("emergency"@);
    reveal_strlit("ICMP");
    reveal_strlit("TCP");
    reveal_strlit("UDP");
    reveal_strlit("IPv6");
    reveal_strlit("OTHER");
    reveal_strlit("icmp");
    reveal_strlit("tcp");
    reveal_strlit("udp");
    reveal_strlit("ipv6");
    reveal_strlit("other");
    assert(lower("ICMP"@) =~= "icmp"@);
    assert(lower("TCP"@) =~= "tcp"@);
    assert(lower("UDP"@) =~= "udp"@);
    assert(lower("IPv6"@) =~= "ipv6"@);
    assert(lower("OTHER"@) =~= "other"@);
    lemma_lower_stays("icmp"@);
    lemma_lower_stays("tcp"@);
    lemma_lower_stays("udp"@);
    lemma_lower_stays("ipv6"@);
    lemma_lower_stays("other"@);
}

/// Upper and lower case do not matter in the name of a level, of a kind or of a protocol.
pub proof fn law_case_does_not_matter(a: Seq<char>, b: Seq<char>)
    requires
        lower(a) == lower(b),
    ensures
        named_level(a) == named_level(b),
        named_kind(a) == named_kind(b),
        named_proto(a) == named_proto(b),
{
}

/// A configuration that says nothing comes to the defaults.
pub proof fn law_silence_means_defaults(
    cfg: Config,
    detectors: ResolvedDetectors,
    view: ResolvedConfig,
)
    requires
        cfg.baseline is None,
        cfg.alert_rules@.len() == 0,
        cfg.emergency_thresholds@.len() == 0,
        cfg.syn_flood is None,
        cfg.port_scan is None,
        cfg.alertmanager is None,
        is_loaded(cfg, detectors, view),
    ensures
        config_error(cfg) is None,
        is_default_config(view),
        detectors.alert_rules@ == default_rules(),
        detectors.emergency.thresholds() == default_thresholds(),
{
}

/// The ticks that stand for a time, at 30 seconds each, add up to at least that time and to
/// less than 30 seconds more.
pub proof fn law_ticks_cover_the_time(secs: u64)
    ensures
        ticks_for(secs) * 30 >= secs,
        ticks_for(secs) * 30 < secs + 30,
{
}

/// A name that is all lowercase letters and digits stays as it is.
proof fn lemma_lower_stays(s: Seq<char>)
    requires
        forall|i: int| 0 <= i < s.len() ==> lower_char(#[trigger] s[i]) == s[i],
    ensures
        lower(s) == s,
{
    assert(lower(s) =~= s);
}

/// The words that a configuration may hold, letter by letter.
proof fn lemma_words()
    ensures
        forall|i: int| 0 <= i < "normal"@.len() ==> lower_char(#[trigger] "normal"@[i]) == "normal"@[i],
        forall|i: int|
            0 <= i < "suspicious"@.len() ==> lower_char(#[trigger] "suspicious"@[i]) == "suspicious"@[i],
        forall|i: int| 0 <= i < "severe"@.len() ==> lower_char(#[trigger] "severe"@[i]) == "severe"@[i],
        forall|i: int| 0 <= i < "spike"@.len() ==> lower_char(#[trigger] "spike"@[i]) == "spike"@[i],
        forall|i: int| 0 <= i < "drop"@.len() ==> lower_char(#[trigger] "drop"@[i]) == "drop"@[i],
        forall|i: int|
            0 <= i < "emergency"@.len() ==> lower_char(#[trigger] "emergency"@[i]) == "emergency"@[i],
        forall|i: int| 0 <= i < "icmp"@.len() ==> lower_char(#[trigger] "icmp"@[i]) == "icmp"@[i],
        forall|i: int| 0 <= i < "tcp"@.len() ==> lower_char(#[trigger] "tcp"@[i]) == "tcp"@[i],
        forall|i: int| 0 <= i < "udp"@.len() ==> lower_char(#[trigger] "udp"@[i]) == "udp"@[i],
        forall|i: int| 0 <= i < "ipv6"@.len() ==> lower_char(#[trigger] "ipv6"@[i]) == "ipv6"@[i],
        forall|i: int| 0 <= i < "other"@.len() ==> lower_char(#[trigger] "other"@[i]) == "other"@[i],
        "normal"@.len() == 6 && "suspicious"@.len() == 10 && "severe"@.len() == 6,
        "normal"@[0] == 'n' && "severe"@[0] == 's',
        "spike"@.len() == 5 && "drop"@.len() == 4 && "emergency"@.len() == 9,
        "icmp"@.len() == 4 && "tcp"@.len() == 3 && "udp"@.len() == 3,
        "ipv6"@.len() == 4 && "other"@.len() == 5,
        "icmp"@[1] == 'c' && "ipv6"@[1] == 'p' && "tcp"@[0] == 't' && "udp"@[0] == 'u',
{
    reveal_strlit("normal");
    reveal_strlit("suspicious");
    reveal_strlit("severe");
    reveal_strlit("spike");
    reveal_strlit("drop");
    reveal_strlit("emergency");
    reveal_strlit("icmp");
    reveal_strlit("tcp");
    reveal_strlit("udp");
    reveal_strlit("ipv6");
    reveal_strlit("other");
}

/// What a configuration gives for the baselines holds, and what it leaves out is 0.4 for the
/// weight of a sample, 5 samples, a deviation of 1e-3, and 120 seconds.
pub proof fn law_given_baseline_values_hold(c: BaselineConfig)
    ensures
        ({
            let r = resolved_baseline(Some(c));
            let d = resolved_baseline(None);
            &&& c.alpha matches Some(v) ==> r.alpha == v
            &&& c.min_samples matches Some(v) ==> r.min_samples == v
            &&& c.min_stddev matches Some(v) ==> r.min_stddev == v
            &&& c.min_elapsed_secs matches Some(v) ==> r.min_elapsed_secs == v
            &&& c.alpha is None ==> r.alpha == d.alpha
            &&& c.min_samples is None ==> r.min_samples == d.min_samples
            &&& c.min_stddev is None ==> r.min_stddev == d.min_stddev
            &&& c.min_elapsed_secs is None ==> r.min_elapsed_secs == d.min_elapsed_secs
            &&& d.alpha == Binary64::two_fifths()
            &&& d.min_samples == 5
            &&& d.min_stddev == Binary64::thousandth()
            &&& d.min_elapsed_secs == 120
        }),
{
}

/// What a configuration gives for SYN floods holds, and what it leaves out is 100 packets per
/// second, 10 addresses, 60 seconds, and 3 ticks each to fire and to resolve.
pub proof fn law_given_syn_flood_values_hold(c: SynFloodConfig)
    ensures
        ({
            let r = resolved_syn_flood(Some(c));
            let d = resolved_syn_flood(None);
            &&& c.max_syn_pps matches Some(v) ==> r.max_syn_pps == v
            &&& c.top_n matches Some(v) ==> r.top_n == v
            &&& c.cooldown_secs matches Some(v) ==> r.cooldown_secs == v
            &&& c.consecutive_threshold matches Some(v) ==> r.consecutive_threshold == v
            &&& c.resolve_consecutive_threshold matches Some(v) ==> r.resolve_consecutive_threshold
                == v
            &&& c.max_syn_pps is None ==> r.max_syn_pps == d.max_syn_pps
            &&& c.top_n is None ==> r.top_n == d.top_n
            &&& c.cooldown_secs is None ==> r.cooldown_secs == d.cooldown_secs
            &&& c.consecutive_threshold is None ==> r.consecutive_threshold
                == d.consecutive_threshold
            &&& c.resolve_consecutive_threshold is None ==> r.resolve_consecutive_threshold
                == d.resolve_consecutive_threshold
            &&& d.max_syn_pps == Binary64::hundred()
            &&& d.top_n == 10 && d.cooldown_secs == 60
            &&& d.consecutive_threshold == 3 && d.resolve_consecutive_threshold == 3
        }),
{
}

/// What a configuration gives for port scans holds, and what it leaves out is 20 ports, 30
/// seconds, 10 addresses, 60 seconds of cooldown, and 3 ticks each to fire and to resolve.
pub proof fn law_given_port_scan_values_hold(c: PortScanConfig)
    ensures
        ({
            let r = resolved_port_scan(Some(c));
            let d = resolved_port_scan(None);
            &&& c.max_distinct_ports matches Some(v) ==> r.max_distinct_ports == v
            &&& c.window_secs matches Some(v) ==> r.window_secs == v
            &&& c.top_n matches Some(v) ==> r.top_n == v
            &&& c.cooldown_secs matches Some(v) ==> r.cooldown_secs == v
            &&& c.consecutive_threshold matches Some(v) ==> r.consecutive_threshold == v
            &&& c.resolve_consecutive_threshold matches Some(v) ==> r.resolve_consecutive_threshold
                == v
            &&& c.max_distinct_ports is None ==> r.max_distinct_ports == d.max_distinct_ports
            &&& c.window_secs is None ==> r.window_secs == d.window_secs
            &&& c.top_n is None ==> r.top_n == d.top_n
            &&& c.cooldown_secs is None ==> r.cooldown_secs == d.cooldown_secs
            &&& c.consecutive_threshold is None ==> r.consecutive_threshold
                == d.consecutive_threshold
            &&& c.resolve_consecutive_threshold is None ==> r.resolve_consecutive_threshold
                == d.resolve_consecutive_threshold
            &&& d.max_distinct_ports == 20 && d.window_secs == 30
            &&& d.top_n == 10 && d.cooldown_secs == 60
            &&& d.consecutive_threshold == 3 && d.resolve_consecutive_threshold == 3
        }),
{
}

/// A rule that is built is the one that is configured: of the kind and the level that are
/// named, with the same confidence, thresholds and freezing, and a cooldown of as many
/// seconds. What is shown of it says the same.
pub proof fn law_rule_is_as_configured(
    rule: AlertRule,
    cfg: AlertRuleConfig,
    view: ResolvedAlertRuleConfig,
)
    requires
        is_rule(rule, cfg),
        shows_rule(view, rule),
    ensures
        named_kind(cfg.kind@) == Some(rule.kind),
        named_level(cfg.min_level@) == Some(rule.min_level),
        rule.cooldown.nanos == cfg.cooldown_secs * 1_000_000_000,
        rule.min_confidence == cfg.min_confidence,
        rule.consecutive_threshold == cfg.consecutive_threshold,
        rule.resolve_consecutive_threshold == cfg.resolve_consecutive_threshold,
        rule.freezes_baseline == cfg.freezes_baseline,
        named_kind(view.kind@) == Some(rule.kind),
        named_level(view.min_level@) == Some(rule.min_level),
        view.min_confidence == cfg.min_confidence,
        view.cooldown_secs == cfg.cooldown_secs,
        view.consecutive_threshold == cfg.consecutive_threshold,
        view.resolve_consecutive_threshold == cfg.resolve_consecutive_threshold,
        view.freezes_baseline == cfg.freezes_baseline,
{
    law_names_are_read_back(rule.min_level, rule.kind, ProtoIndex::Icmp);
    law_seconds_round_trip(cfg.cooldown_secs, rule.cooldown);
}

/// An emergency threshold that is built is the one that is configured: for the protocol that
/// is named, with the same limits. What is shown of it says the same.
pub proof fn law_threshold_is_as_configured(
    t: EmergencyThreshold,
    cfg: EmergencyThresholdConfig,
    view: ResolvedEmergencyThresholdConfig,
)
    requires
        is_threshold(t, cfg),
        shows_threshold(view, t),
    ensures
        named_proto(cfg.proto@) == Some(t.proto),
        t.max_pps == cfg.max_pps && t.max_bps == cfg.max_bps,
        named_proto(view.proto@) == Some(t.proto),
        view.max_pps == cfg.max_pps && view.max_bps == cfg.max_bps,
{
    law_names_are_read_back(AnomalyLevel::Normal, AlertKind::Spike, t.proto);
}

/// Rules are wrong exactly if one of them names no kind or no level; the first such rule is
/// the one that is reported, by its kind if that is wrong, by its level otherwise.
pub proof fn law_first_wrong_rule_is_reported(rules: Seq<AlertRuleConfig>, i: int)
    requires
        0 <= i <= rules.len(),
        forall|k: int|
            0 <= k < i ==> named_kind((#[trigger] rules[k]).kind@) is Some && named_level(
                rules[k].min_level@,
            ) is Some,
        i < rules.len() ==> named_kind(rules[i].kind@) is None || named_level(rules[i].min_level@)
            is None,
    ensures
        i == rules.len() ==> rules_error(rules) is None,
        i < rules.len() && named_kind(rules[i].kind@) is None ==> rules_error(rules) == Some(
            ConfigFault::UnknownKind { rule: i, text: lower(rules[i].kind@) },
        ),
        i < rules.len() && named_kind(rules[i].kind@) is Some ==> rules_error(rules) == Some(
            ConfigFault::UnknownLevel { rule: i, text: lower(rules[i].min_level@) },
        ),
{
    if i < rules.len() {
        assert(!rule_is_named(rules[i]));
        lemma_first_bad_rule(rules, 0, i);
    } else {
        assert forall|k: int| 0 <= k < rules.len() implies rule_is_named(#[trigger] rules[k]) by {
            assert(named_kind(rules[k].kind@) is Some);
        }
    }
}

proof fn lemma_first_bad_rule(rules: Seq<AlertRuleConfig>, from: int, i: int)
    requires
        0 <= from <= i < rules.len(),
        forall|k: int|
            0 <= k < i ==> named_kind((#[trigger] rules[k]).kind@) is Some && named_level(
                rules[k].min_level@,
            ) is Some,
        !rule_is_named(rules[i]),
    ensures
        first_bad_rule(rules, from) == i,
    decreases i - from,
{
    if from < i {
        assert(named_kind(rules[from].kind@) is Some);
        lemma_first_bad_rule(rules, from + 1, i);
    }
}

/// A configuration is wrong by its first threshold that names no protocol; where there is
/// none, by its first wrong rule; where there is none either, by asking to push without an
/// address; and is right otherwise.
pub proof fn law_errors_are_reported_in_order(cfg: Config, i: int)
    requires
        0 <= i <= cfg.emergency_thresholds@.len(),
        forall|k: int|
            0 <= k < i ==> named_proto((#[trigger] cfg.emergency_thresholds@[k]).proto@) is Some,
        i < cfg.emergency_thresholds@.len() ==> named_proto(cfg.emergency_thresholds@[i].proto@)
            is None,
    ensures
        ({
            let pushes_nowhere = cfg.alertmanager matches Some(a) && a.enabled == Some(true)
                && a.url is None;
            let all_named = i == cfg.emergency_thresholds@.len();
            let rules = rules_error(cfg.alert_rules@);
            &&& !all_named ==> config_error(cfg) == Some(
                ConfigFault::UnknownProto {
                    threshold: i,
                    text: lower(cfg.emergency_thresholds@[i].proto@),
                },
            )
            &&& all_named && rules is Some ==> config_error(cfg) == rules
            &&& all_named && rules is None && pushes_nowhere ==> config_error(cfg) == Some(
                ConfigFault::MissingUrl,
            )
            &&& all_named && rules is None && !pushes_nowhere ==> config_error(cfg) is None
        }),
{
    lemma_first_bad_threshold(cfg.emergency_thresholds@, 0, i);
}

proof fn lemma_first_bad_threshold(ts: Seq<EmergencyThresholdConfig>, from: int, i: int)
    requires
        0 <= from <= i <= ts.len(),
        forall|k: int| 0 <= k < i ==> named_proto((#[trigger] ts[k]).proto@) is Some,
        i < ts.len() ==> named_proto(ts[i].proto@) is None,
    ensures
        first_bad_threshold(ts, from) == i,
    decreases i - from,
{
    if from < i {
        assert(named_proto(ts[from].proto@) is Some);
        lemma_first_bad_threshold(ts, from + 1, i);
    }
}

/// What a configuration comes to: the per-address detectors and alert managers go by the
/// values that it gives or leaves out, cooldowns and windows by as many seconds; its own
/// rules and thresholds replace the defaults as soon as there is one.
pub proof fn law_detectors_are_as_configured(
    cfg: Config,
    detectors: ResolvedDetectors,
    view: ResolvedConfig,
)
    requires
        is_loaded(cfg, detectors, view),
    ensures
        ({
            let flood = resolved_syn_flood(cfg.syn_flood);
            let scan = resolved_port_scan(cfg.port_scan);
            let ft = detectors.synflood_alert_manager.timing();
            let st = detectors.port_scan_alert_manager.timing();
            &&& detectors.synflood_detector.max_syn_pps == flood.max_syn_pps
            &&& detectors.synflood_detector.top_n == flood.top_n
            &&& ft.cooldown.nanos == flood.cooldown_secs * 1_000_000_000
            &&& ft.consecutive_threshold == flood.consecutive_threshold
            &&& ft.resolve_consecutive_threshold == flood.resolve_consecutive_threshold
            &&& detectors.port_scan_detector.max_distinct_ports == scan.max_distinct_ports
            &&& detectors.port_scan_detector.top_n == scan.top_n
            &&& scan.window_secs * 1_000_000_000 <= u64::MAX
                ==> detectors.port_scan_detector.window_ns == scan.window_secs * 1_000_000_000
            &&& st.cooldown.nanos == scan.cooldown_secs * 1_000_000_000
            &&& st.consecutive_threshold == scan.consecutive_threshold
            &&& st.resolve_consecutive_threshold == scan.resolve_consecutive_threshold
            &&& cfg.alert_rules@.len() > 0 ==> detectors.alert_rules@.len()
                == cfg.alert_rules@.len()
            &&& cfg.emergency_thresholds@.len() > 0 ==> detectors.emergency.thresholds().len()
                == cfg.emergency_thresholds@.len()
            &&& detectors.baseline.min_samples == resolved_baseline(cfg.baseline).min_samples
            &&& detectors.baseline.min_stddev == resolved_baseline(cfg.baseline).min_stddev
            &&& detectors.baseline.min_elapsed_ticks * 30 >= resolved_baseline(
                cfg.baseline,
            ).min_elapsed_secs
            &&& detectors.baseline.elapsed_ticks == 0
            &&& forall|proto: ProtoIndex|
                (#[trigger] detectors.baseline.pps_ewma.at(proto)).alpha == resolved_baseline(
                    cfg.baseline,
                ).alpha && detectors.baseline.pps_ewma.at(proto).samples == 0
        }),
{
}

} // verus!
