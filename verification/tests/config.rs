//! Configuration.
use ebpf_xdp_program::alert::model::AlertKind;
use ebpf_xdp_program::anomaly::model::AnomalyLevel;
use ebpf_xdp_program::baseline::estimator::BaselineState;
use ebpf_xdp_program::binary64::Binary64;
use ebpf_xdp_program::common::ProtoIndex;
use ebpf_xdp_program::config::{
    build_alert_rules, build_alertmanager, build_emergency_detector, build_estimator,
    build_port_scan, build_synflood, default_alert_rules, default_emergency_thresholds,
    default_port_scan_alert_manager, default_port_scan_detector, default_resolved_config,
    default_synflood_alert_manager, default_synflood_detector, load_config, parse_alert_kind,
    parse_anomaly_level, parse_proto_index, resolve_all, AlertRuleConfig, AlertmanagerConfig,
    BaselineConfig, Config, ConfigError, EmergencyThresholdConfig, PortScanConfig, SynFloodConfig,
};

/// A double as the library holds it.
fn b(x: f64) -> Binary64 {
    Binary64::from_bits(x.to_bits())
}

/// A number of the library as a double.
fn v(x: Binary64) -> f64 {
    f64::from_bits(x.to_bits())
}

/// A configuration that says nothing.
fn nothing() -> Config {
    Config {
        baseline: None,
        alert_rules: vec![],
        emergency_thresholds: vec![],
        syn_flood: None,
        port_scan: None,
        alertmanager: None,
    }
}

#[test]
fn parse_anomaly_level_valid() {
    assert!(matches!(
        parse_anomaly_level("normal"),
        Ok(AnomalyLevel::Normal)
    ));
    assert!(matches!(
        parse_anomaly_level("suspicious"),
        Ok(AnomalyLevel::Suspicious)
    ));
    assert!(matches!(
        parse_anomaly_level("severe"),
        Ok(AnomalyLevel::Severe)
    ));
}

#[test]
fn parse_anomaly_level_case_insensitive() {
    assert!(matches!(
        parse_anomaly_level("NORMAL"),
        Ok(AnomalyLevel::Normal)
    ));
    assert!(matches!(
        parse_anomaly_level("Suspicious"),
        Ok(AnomalyLevel::Suspicious)
    ));
}

#[test]
fn parse_anomaly_level_invalid_returns_err() {
    assert!(parse_anomaly_level("critical").is_err());
    assert!(parse_anomaly_level("").is_err());
}

#[test]
fn parse_alert_kind_valid() {
    assert!(matches!(parse_alert_kind("spike"), Ok(AlertKind::Spike)));
    assert!(matches!(parse_alert_kind("drop"), Ok(AlertKind::Drop)));
    assert!(matches!(
        parse_alert_kind("emergency"),
        Ok(AlertKind::Emergency)
    ));
}

#[test]
fn parse_alert_kind_invalid_returns_err() {
    assert!(parse_alert_kind("flood").is_err());
    assert!(parse_alert_kind("").is_err());
}

#[test]
fn parse_proto_index_valid() {
    assert!(matches!(parse_proto_index("icmp"), Ok(ProtoIndex::Icmp)));
    assert!(matches!(parse_proto_index("tcp"), Ok(ProtoIndex::Tcp)));
    assert!(matches!(parse_proto_index("udp"), Ok(ProtoIndex::Udp)));
    assert!(matches!(parse_proto_index("ipv6"), Ok(ProtoIndex::Ipv6)));
    assert!(matches!(parse_proto_index("other"), Ok(ProtoIndex::Other)));
}

#[test]
fn parse_proto_index_invalid_returns_err() {
    assert!(parse_proto_index("sctp").is_err());
    assert!(parse_proto_index("").is_err());
}

#[test]
fn build_estimator_none_uses_defaults() {
    let (est, resolved) = build_estimator(None);
    // No samples fed - must still be in Warming state.
    assert!(matches!(
        est.snapshot(ProtoIndex::Tcp),
        BaselineState::Warming
    ));
    assert_eq!(v(resolved.alpha), 0.4);
    assert_eq!(resolved.min_samples, 5);
    assert_eq!(v(resolved.min_stddev), 1e-3);
    assert_eq!(resolved.min_elapsed_secs, 120);
}

#[test]
fn build_estimator_applies_overrides_to_resolved_view() {
    let (_, resolved) = build_estimator(Some(BaselineConfig {
        alpha: Some(b(0.2)),
        min_samples: Some(10),
        min_stddev: None,
        min_elapsed_secs: None,
    }));
    assert_eq!(v(resolved.alpha), 0.2);
    assert_eq!(resolved.min_samples, 10);
    // Omitted fields still fall back to defaults.
    assert_eq!(v(resolved.min_stddev), 1e-3);
    assert_eq!(resolved.min_elapsed_secs, 120);
}

#[test]
fn build_alert_rules_valid_rule() {
    let cfg = vec![AlertRuleConfig {
        kind: "spike".to_string(),
        min_level: "suspicious".to_string(),
        min_confidence: b(0.5),
        cooldown_secs: 60,
        consecutive_threshold: 3,
        resolve_consecutive_threshold: 2,
        freezes_baseline: true,
    }];
    let rules = build_alert_rules(&cfg).expect("should parse");
    assert_eq!(rules.len(), 1);
    assert!(matches!(rules[0].kind, AlertKind::Spike));
    assert!(matches!(rules[0].min_level, AnomalyLevel::Suspicious));
    assert!((v(rules[0].min_confidence) - 0.5).abs() < 1e-9);
    assert_eq!(rules[0].consecutive_threshold, 3);
    assert!(rules[0].freezes_baseline);
}

#[test]
fn build_alert_rules_invalid_kind_returns_err() {
    let cfg = vec![AlertRuleConfig {
        kind: "unknown_kind".to_string(),
        min_level: "suspicious".to_string(),
        min_confidence: b(0.5),
        cooldown_secs: 60,
        consecutive_threshold: 3,
        resolve_consecutive_threshold: 2,
        freezes_baseline: false,
    }];
    assert!(build_alert_rules(&cfg).is_err());
}

#[test]
fn build_alert_rules_invalid_level_returns_err() {
    let cfg = vec![AlertRuleConfig {
        kind: "spike".to_string(),
        min_level: "critical".to_string(),
        min_confidence: b(0.5),
        cooldown_secs: 60,
        consecutive_threshold: 3,
        resolve_consecutive_threshold: 2,
        freezes_baseline: false,
    }];
    assert!(build_alert_rules(&cfg).is_err());
}

#[test]
fn build_emergency_detector_valid_threshold() {
    let cfg = vec![EmergencyThresholdConfig {
        proto: "tcp".to_string(),
        max_pps: Some(b(1000.0)),
        max_bps: None,
    }];
    assert!(build_emergency_detector(&cfg).is_ok());
}

#[test]
fn build_emergency_detector_invalid_proto_returns_err() {
    let cfg = vec![EmergencyThresholdConfig {
        proto: "sctp".to_string(),
        max_pps: Some(b(1000.0)),
        max_bps: None,
    }];
    assert!(build_emergency_detector(&cfg).is_err());
}

#[test]
fn build_synflood_none_uses_defaults() {
    let (_, _, resolved) = build_synflood(None);
    assert_eq!(v(resolved.max_syn_pps), 100.0);
    assert_eq!(resolved.top_n, 10);
    assert_eq!(resolved.cooldown_secs, 60);
    assert_eq!(resolved.consecutive_threshold, 3);
    assert_eq!(resolved.resolve_consecutive_threshold, 3);
}

#[test]
fn build_synflood_applies_overrides() {
    let (_, _, resolved) = build_synflood(Some(SynFloodConfig {
        max_syn_pps: Some(b(50.0)),
        top_n: Some(5),
        cooldown_secs: None,
        consecutive_threshold: None,
        resolve_consecutive_threshold: None,
    }));
    assert_eq!(v(resolved.max_syn_pps), 50.0);
    assert_eq!(resolved.top_n, 5);
    // Omitted fields still fall back to defaults.
    assert_eq!(resolved.cooldown_secs, 60);
    assert_eq!(resolved.consecutive_threshold, 3);
}

#[test]
fn build_port_scan_none_uses_defaults() {
    let (_, _, resolved) = build_port_scan(None);
    assert_eq!(resolved.max_distinct_ports, 20);
    assert_eq!(resolved.window_secs, 30);
    assert_eq!(resolved.top_n, 10);
    assert_eq!(resolved.cooldown_secs, 60);
    assert_eq!(resolved.consecutive_threshold, 3);
    assert_eq!(resolved.resolve_consecutive_threshold, 3);
}

#[test]
fn build_port_scan_applies_overrides() {
    let (_, _, resolved) = build_port_scan(Some(PortScanConfig {
        max_distinct_ports: Some(50),
        window_secs: Some(10),
        top_n: Some(5),
        cooldown_secs: None,
        consecutive_threshold: None,
        resolve_consecutive_threshold: None,
    }));
    assert_eq!(resolved.max_distinct_ports, 50);
    assert_eq!(resolved.window_secs, 10);
    assert_eq!(resolved.top_n, 5);
    // Omitted fields still fall back to defaults.
    assert_eq!(resolved.cooldown_secs, 60);
    assert_eq!(resolved.consecutive_threshold, 3);
}

#[test]
fn load_config_empty_toml_returns_defaults() {
    assert!(
        load_config(nothing()).is_ok(),
        "empty TOML should fall back to defaults"
    );
}

#[test]
fn load_config_with_overrides() {
    let cfg = Config {
        baseline: Some(BaselineConfig {
            alpha: Some(b(0.2)),
            min_samples: Some(10),
            min_stddev: None,
            min_elapsed_secs: None,
        }),
        alert_rules: vec![AlertRuleConfig {
            kind: "drop".to_string(),
            min_level: "severe".to_string(),
            min_confidence: b(0.8),
            cooldown_secs: 30,
            consecutive_threshold: 2,
            resolve_consecutive_threshold: 1,
            freezes_baseline: false,
        }],
        ..nothing()
    };
    let (detectors, resolved) = load_config(cfg).expect("should parse");
    let rules = detectors.alert_rules;
    assert_eq!(rules.len(), 1);
    assert!(matches!(rules[0].kind, AlertKind::Drop));
    assert!(matches!(rules[0].min_level, AnomalyLevel::Severe));

    assert_eq!(v(resolved.baseline.alpha), 0.2);
    assert_eq!(resolved.baseline.min_samples, 10);
    assert_eq!(resolved.alert_rules.len(), 1);
    assert_eq!(resolved.alert_rules[0].kind, "drop");
    assert_eq!(resolved.alert_rules[0].min_level, "severe");
}

#[test]
fn load_config_with_synflood_overrides() {
    let cfg = Config {
        syn_flood: Some(SynFloodConfig {
            max_syn_pps: Some(b(250.0)),
            top_n: Some(3),
            cooldown_secs: None,
            consecutive_threshold: None,
            resolve_consecutive_threshold: None,
        }),
        ..nothing()
    };
    let (_, resolved) = load_config(cfg).expect("should parse");
    assert_eq!(v(resolved.syn_flood.max_syn_pps), 250.0);
    assert_eq!(resolved.syn_flood.top_n, 3);
    // Omitted fields still fall back to defaults.
    assert_eq!(resolved.syn_flood.cooldown_secs, 60);
}

#[test]
fn load_config_with_port_scan_overrides() {
    let cfg = Config {
        port_scan: Some(PortScanConfig {
            max_distinct_ports: Some(40),
            window_secs: Some(15),
            top_n: None,
            cooldown_secs: None,
            consecutive_threshold: None,
            resolve_consecutive_threshold: None,
        }),
        ..nothing()
    };
    let (_, resolved) = load_config(cfg).expect("should parse");
    assert_eq!(resolved.port_scan.max_distinct_ports, 40);
    assert_eq!(resolved.port_scan.window_secs, 15);
    // Omitted fields still fall back to defaults.
    assert_eq!(resolved.port_scan.top_n, 10);
}

#[test]
fn default_resolved_config_matches_compiled_in_defaults() {
    let resolved = default_resolved_config();
    assert_eq!(v(resolved.baseline.alpha), 0.4);
    assert_eq!(resolved.baseline.min_samples, 5);
    assert_eq!(resolved.alert_rules.len(), default_alert_rules().len());
    assert_eq!(resolved.alert_rules[0].kind, "spike");
    assert_eq!(resolved.alert_rules[1].kind, "emergency");
    assert_eq!(resolved.emergency_thresholds.len(), 1);
    assert_eq!(resolved.emergency_thresholds[0].proto, "icmp");
    assert_eq!(resolved.emergency_thresholds[0].max_pps.map(v), Some(3.0));
}

#[test]
fn default_resolved_config_includes_synflood_defaults() {
    let resolved = default_resolved_config();
    assert_eq!(v(resolved.syn_flood.max_syn_pps), 100.0);
    assert_eq!(resolved.syn_flood.top_n, 10);
}

#[test]
fn default_resolved_config_includes_port_scan_defaults() {
    let resolved = default_resolved_config();
    assert_eq!(resolved.port_scan.max_distinct_ports, 20);
    assert_eq!(resolved.port_scan.window_secs, 30);
}

#[test]
fn resolve_all_none_matches_defaults() {
    let (detectors, resolved) = resolve_all(None).expect("should resolve defaults");
    assert_eq!(detectors.alert_rules.len(), default_alert_rules().len());
    assert_eq!(v(resolved.baseline.alpha), 0.4);
}

#[test]
fn resolve_all_some_path_loads_file() {
    let cfg = Config {
        baseline: Some(BaselineConfig {
            alpha: Some(b(0.7)),
            min_samples: None,
            min_stddev: None,
            min_elapsed_secs: None,
        }),
        ..nothing()
    };
    let (_, resolved) = resolve_all(Some(cfg)).expect("should resolve from file");
    assert_eq!(v(resolved.baseline.alpha), 0.7);
}

#[test]
fn load_config_unknown_proto_in_thresholds_returns_err() {
    let cfg = Config {
        emergency_thresholds: vec![EmergencyThresholdConfig {
            proto: "sctp".to_string(),
            max_pps: Some(b(1000.0)),
            max_bps: None,
        }],
        ..nothing()
    };
    assert!(load_config(cfg).is_err());
}

#[test]
fn unknown_words_are_told_in_lowercase() {
    assert_eq!(parse_anomaly_level("Critical").unwrap_err().text, "critical");
    assert_eq!(parse_alert_kind("FLOOD").unwrap_err().text, "flood");
    assert_eq!(parse_proto_index("Sctp").unwrap_err().text, "sctp");
}

fn rule(kind: &str, level: &str) -> AlertRuleConfig {
    AlertRuleConfig {
        kind: kind.to_string(),
        min_level: level.to_string(),
        min_confidence: b(0.5),
        cooldown_secs: 60,
        consecutive_threshold: 3,
        resolve_consecutive_threshold: 2,
        freezes_baseline: false,
    }
}

#[test]
fn errors_name_the_first_wrong_entry() {
    let rules = vec![rule("spike", "severe"), rule("spike", "critical"), rule("flood", "severe")];
    assert_eq!(
        build_alert_rules(&rules).err(),
        Some(ConfigError::UnknownLevel { rule: 1, text: "critical".to_string() })
    );
    let rules = vec![rule("spike", "severe"), rule("Flood", "critical")];
    assert_eq!(
        build_alert_rules(&rules).err(),
        Some(ConfigError::UnknownKind { rule: 1, text: "flood".to_string() })
    );
    let thresholds = vec![
        EmergencyThresholdConfig { proto: "UDP".to_string(), max_pps: None, max_bps: None },
        EmergencyThresholdConfig { proto: "sctp".to_string(), max_pps: None, max_bps: None },
    ];
    assert_eq!(
        build_emergency_detector(&thresholds).err(),
        Some(ConfigError::UnknownProto { threshold: 1, text: "sctp".to_string() })
    );
}

#[test]
fn pushing_needs_an_address() {
    let on = |url: Option<String>| AlertmanagerConfig {
        enabled: Some(true),
        url,
        timeout_secs: None,
        generator_url: None,
    };
    assert!(matches!(build_alertmanager(Some(on(None))), Err(ConfigError::MissingUrl)));
    let built = build_alertmanager(Some(on(Some("http://am:9093".to_string())))).unwrap();
    assert!(built.enabled);
    assert_eq!(built.url.as_deref(), Some("http://am:9093"));
    assert_eq!(built.timeout_secs, 5);
    let off = build_alertmanager(None).unwrap();
    assert!(!off.enabled);
    assert_eq!(off.timeout_secs, 5);
    let cfg = Config { alertmanager: Some(on(None)), ..nothing() };
    assert!(matches!(load_config(cfg), Err(ConfigError::MissingUrl)));
}

#[test]
fn thresholds_are_reported_before_rules() {
    let cfg = Config {
        alert_rules: vec![rule("flood", "severe")],
        emergency_thresholds: vec![EmergencyThresholdConfig {
            proto: "sctp".to_string(),
            max_pps: None,
            max_bps: None,
        }],
        ..nothing()
    };
    assert!(matches!(load_config(cfg), Err(ConfigError::UnknownProto { threshold: 0, .. })));
}

#[test]
fn warm_up_time_is_rounded_up_to_ticks() {
    let secs = |s: u64| BaselineConfig {
        alpha: None,
        min_samples: None,
        min_stddev: None,
        min_elapsed_secs: Some(s),
    };
    assert_eq!(build_estimator(None).0.min_elapsed_ticks, 4);
    assert_eq!(build_estimator(Some(secs(0))).0.min_elapsed_ticks, 0);
    assert_eq!(build_estimator(Some(secs(1))).0.min_elapsed_ticks, 1);
    assert_eq!(build_estimator(Some(secs(30))).0.min_elapsed_ticks, 1);
    assert_eq!(build_estimator(Some(secs(31))).0.min_elapsed_ticks, 2);
}

#[test]
fn names_shown_are_read_back() {
    for rule in default_resolved_config().alert_rules {
        assert_eq!(parse_alert_kind(rule.kind).unwrap().label(), rule.kind);
        assert_eq!(parse_anomaly_level(rule.min_level).unwrap().label(), rule.min_level);
    }
    for t in default_resolved_config().emergency_thresholds {
        assert_eq!(parse_proto_index(&t.proto).unwrap().label().to_ascii_lowercase(), t.proto);
    }
}

#[test]
fn default_detectors_have_the_default_parameters() {
    assert_eq!(v(default_synflood_detector().max_syn_pps), 100.0);
    assert_eq!(default_synflood_alert_manager().active_count(), 0);
    assert_eq!(default_port_scan_detector().window_ns(), 30_000_000_000);
    assert_eq!(default_port_scan_detector().top_n(), 10);
    assert_eq!(default_port_scan_alert_manager().active_count(), 0);
    assert_eq!(default_emergency_thresholds().len(), 1);
    assert_eq!(build_port_scan(None).0.window_ns(), 30_000_000_000);
}
