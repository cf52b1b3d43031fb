use monitor::api::{
    admit_report, agent_token_node, bearer_token, history_query, may_take_over, key_matches, latency_update, normalize_site,
    report_is_current, valid_report_summary, ReportSummary, SampleMeta, SettingsError,
};
use monitor::model::{LatencyTargets, NetworkCounter, SiteSettings};
use monitor::store::token_hash;

fn summary() -> ReportSummary {
    ReportSummary {
        protocol: 1,
        agent_version: "0.1.0".into(),
        boot_id: "boot".into(),
        hostname: "host".into(),
        os: "Linux".into(),
        kernel: "6.1".into(),
        arch: "x86_64".into(),
        virtualization: "kvm".into(),
        cpu_name: "CPU".into(),
        cpu_cores: 1,
        network: vec![],
        latency_sample: None,
    }
}

#[test]
fn bearer_tokens_follow_the_scheme_exactly() {
    assert_eq!(bearer_token("Bearer abc"), Some("abc".to_owned()));
    assert_eq!(bearer_token("Bearer "), Some(String::new()));
    assert_eq!(bearer_token("bearer abc"), None);
    assert_eq!(bearer_token("Basic abc"), None);
    assert_eq!(bearer_token("Bearer  two"), Some(" two".to_owned()));
}

#[test]
fn agent_keys_name_their_node() {
    assert_eq!(agent_token_node("hk-1.secret"), Some("hk-1".to_owned()));
    assert_eq!(agent_token_node("a.b.c"), Some("a".to_owned()));
    assert_eq!(agent_token_node("no-dot"), None);
    assert_eq!(agent_token_node(&format!("{}.x", "n".repeat(65))), None);
    assert_eq!(
        agent_token_node(&format!("{}.x", "n".repeat(64))),
        Some("n".repeat(64))
    );
    assert_eq!(agent_token_node(&format!("n.{}", "s".repeat(159))), None);
    assert_eq!(
        agent_token_node(&format!("n.{}", "s".repeat(158))),
        Some("n".to_owned())
    );
}

#[test]
fn keys_match_only_their_stored_digest() {
    let digest = token_hash("n.secret");
    assert!(key_matches("n.secret", &digest));
    assert!(!key_matches("n.secreT", &digest));
    assert!(!key_matches("n.secret", &digest[..31]));
}

#[test]
fn queued_reports_must_come_from_the_current_connection_and_key() {
    let key = token_hash("n.a");
    let other = token_hash("n.b");
    assert!(report_is_current(2, &key, 2, &key));
    assert!(!report_is_current(1, &key, 2, &key));
    assert!(!report_is_current(2, &key, 2, &other));
    assert!(!report_is_current(2, &key, 2, &key[..10]));
}

#[test]
fn report_fields_are_bounded() {
    assert!(valid_report_summary(&summary()));
    let mut value = summary();
    value.hostname = "a".repeat(256);
    assert!(!valid_report_summary(&value));
    value.hostname = "a".repeat(255);
    assert!(valid_report_summary(&value));
    let mut value = summary();
    value.boot_id.clear();
    assert!(!valid_report_summary(&value));
    let mut value = summary();
    value.protocol = 2;
    assert!(!valid_report_summary(&value));
    let mut value = summary();
    value.cpu_cores = 4097;
    assert!(!valid_report_summary(&value));
    let mut value = summary();
    value.kernel = "é".repeat(65);
    assert!(!valid_report_summary(&value));
}

#[test]
fn report_interfaces_and_latency_rounds_are_bounded() {
    let nic = |name: &str, rx: u64| NetworkCounter {
        name: name.into(),
        index: 1,
        rx,
        tx: 0,
    };
    let mut value = summary();
    value.network = vec![nic("eth0", i64::MAX as u64)];
    assert!(valid_report_summary(&value));
    value.network = vec![nic("eth0", i64::MAX as u64 + 1)];
    assert!(!valid_report_summary(&value));
    value.network = vec![nic("", 0)];
    assert!(!valid_report_summary(&value));
    value.network = (0..65).map(|i| nic(&format!("e{i}"), 0)).collect();
    assert!(!valid_report_summary(&value));
    let mut value = summary();
    value.latency_sample = Some(SampleMeta {
        id: 1,
        revision: 0,
        interval_seconds: Some(0),
    });
    assert!(!valid_report_summary(&value));
    value.latency_sample = Some(SampleMeta {
        id: 1,
        revision: 0,
        interval_seconds: Some(30),
    });
    assert!(valid_report_summary(&value));
    value.latency_sample = Some(SampleMeta {
        id: u64::MAX,
        revision: 0,
        interval_seconds: None,
    });
    assert!(!valid_report_summary(&value));
    value.latency_sample = Some(SampleMeta {
        id: 0,
        revision: 0,
        interval_seconds: None,
    });
    assert!(!valid_report_summary(&value));
}

#[test]
fn history_queries_default_to_six_hours_of_resources() {
    assert_eq!(history_query(None, None), Some((6, false)));
    assert_eq!(history_query(Some(720), Some("latency")), Some((720, true)));
    assert_eq!(history_query(Some(1), Some("resources")), Some((1, false)));
    assert_eq!(history_query(Some(0), None), None);
    assert_eq!(history_query(Some(721), None), None);
    assert_eq!(history_query(None, Some("cpu")), None);
}

#[test]
fn latency_settings_keep_the_interval_unless_given() {
    let current = LatencyTargets::default();
    let updated = latency_update(
        "a.example:80".into(),
        "b.example:80".into(),
        "[::1]:443".into(),
        None,
        &current,
    )
    .unwrap();
    assert_eq!(updated.telecom, "a.example:80");
    assert_eq!(updated.mobile, "[::1]:443");
    assert_eq!(updated.interval_seconds, 30);
    let faster = latency_update(
        "a.example:80".into(),
        "b.example:80".into(),
        "c.example:80".into(),
        Some(10),
        &current,
    )
    .unwrap();
    assert_eq!(faster.interval_seconds, 10);
    assert_eq!(
        latency_update(
            "a.example:80".into(),
            "b.example:80".into(),
            "c.example:80".into(),
            Some(9),
            &current
        ),
        Err(SettingsError::InvalidInterval)
    );
    assert_eq!(
        latency_update(
            "a.example".into(),
            "b.example:80".into(),
            "c.example:80".into(),
            None,
            &current
        ),
        Err(SettingsError::InvalidTarget)
    );
    assert_eq!(
        latency_update("x".into(), "y".into(), "z".into(), Some(0), &current),
        Err(SettingsError::InvalidInterval)
    );
}

#[test]
fn site_texts_are_trimmed_and_bounded() {
    let site = SiteSettings {
        name: "  Status \n".into(),
        description: " all ".into(),
        footer: String::new(),
    };
    let saved = normalize_site(&site).unwrap();
    assert_eq!(
        (saved.name.as_str(), saved.description.as_str(), saved.footer.as_str()),
        ("Status", "all", "")
    );
    let empty = SiteSettings {
        name: "   ".into(),
        description: String::new(),
        footer: String::new(),
    };
    assert_eq!(normalize_site(&empty).unwrap_err(), SettingsError::SiteTextLength);
    let long = SiteSettings {
        name: "字".repeat(40),
        description: "d".repeat(120),
        footer: "f".repeat(121),
    };
    assert_eq!(normalize_site(&long).unwrap_err(), SettingsError::SiteTextLength);
    let fits = SiteSettings {
        name: "字".repeat(40),
        description: "d".repeat(120),
        footer: format!(" {} ", "f".repeat(120)),
    };
    assert!(normalize_site(&fits).is_ok());
}

#[test]
fn reports_need_valid_fields_numbers_and_a_gap() {
    assert!(admit_report(&summary(), true, 200_000_000));
    assert!(!admit_report(&summary(), true, 199_999_999));
    assert!(!admit_report(&summary(), false, 1_000_000_000));
    let mut value = summary();
    value.arch = "a".repeat(33);
    assert!(!admit_report(&value, true, 1_000_000_000));
}

#[test]
fn connections_take_over_only_with_the_current_key() {
    let key = token_hash("n.a");
    let rotated = token_hash("n.b");
    assert!(may_take_over(&key, &key, false));
    assert!(!may_take_over(&key, &key, true));
    assert!(!may_take_over(&rotated, &key, false));
}

#[test]
fn report_validation_bounds_untrusted_text_samples_and_nonfinite_numbers() {
    // The float bounds of the report are checked where the floats are read;
    // the text and the latency round are checked here.
    let mut value = summary();
    value.hostname = "a".repeat(256);
    assert!(!valid_report_summary(&value));
    value.hostname.clear();
    assert!(valid_report_summary(&value));
    value.latency_sample = Some(SampleMeta {
        id: 1,
        revision: 0,
        interval_seconds: Some(0),
    });
    assert!(!valid_report_summary(&value));
    value.latency_sample = Some(SampleMeta {
        id: 1,
        revision: 0,
        interval_seconds: Some(30),
    });
    assert!(valid_report_summary(&value));
    value.latency_sample = Some(SampleMeta {
        id: u64::MAX,
        revision: 0,
        interval_seconds: Some(30),
    });
    assert!(!valid_report_summary(&value));
}
