use monitor::model::{
    default_latency_interval, network_delta, network_totals, valid_latency_interval,
    valid_target, valid_targets, AppSettings, LatencyTargets, NetworkCounter, SiteSettings,
    DEFAULT_LATENCY_INTERVAL_SECS,
};

fn nic(name: &str, index: u32, rx: u64, tx: u64) -> NetworkCounter {
    NetworkCounter {
        name: name.into(),
        index,
        rx,
        tx,
    }
}

#[test]
fn network_baseline_reset_and_interface_replacement() {
    let old = vec![nic("eth0", 2, 100, 200)];
    assert_eq!(network_delta(&[], &old), (0, 0));
    assert_eq!(network_delta(&old, &[nic("eth0", 2, 150, 260)]), (50, 60));
    assert_eq!(network_delta(&old, &[nic("eth0", 2, 10, 20)]), (10, 20));
    assert_eq!(network_delta(&old, &[nic("eth0", 3, 5000, 6000)]), (0, 0));
    assert_eq!(network_delta(&old, &[]), (0, 0));
    assert_eq!(
        network_delta(
            &old,
            &[nic("eth0", 2, 101, 201), nic("eth1", 4, 99999, 99999)]
        ),
        (1, 1)
    );
}

#[test]
fn targets_require_a_host_and_port_and_support_ipv6() {
    for value in ["example.com:80", "127.0.0.1:34331", "[2001:db8::1]:443"] {
        assert!(valid_target(value), "{value}");
    }
    for value in [
        "",
        "http://example.com:80",
        "::1:80",
        "[]:80",
        "[oops]:80",
        "host:0",
        "host:65536",
        "a..b:80",
        "x:80/path",
        "x:80#bad",
        "x\n:80",
        "-x:80",
    ] {
        assert!(!valid_target(value), "{value}");
    }
}

#[test]
fn latency_intervals_are_ten_to_3600_seconds() {
    assert_eq!(default_latency_interval(), 30);
    for value in [10, 30, 60, 3600] {
        assert!(valid_latency_interval(value));
    }
    for value in [0, 9, 3601, u64::MAX] {
        assert!(!valid_latency_interval(value));
    }
}

#[test]
fn unchanged_counters_and_new_snapshots_add_no_traffic() {
    let snapshot = vec![nic("eth0", 2, 7, 9), nic("ens3", 3, u64::MAX, 1)];
    assert_eq!(network_delta(&snapshot, &snapshot), (0, 0));
    assert_eq!(network_delta(&[], &snapshot), (0, 0));
    assert_eq!(network_delta(&snapshot, &[nic("eth9", 8, 1000, 1000)]), (0, 0));
}

#[test]
fn interface_deltas_saturate_instead_of_wrapping() {
    let old = vec![nic("a", 1, 0, 0), nic("b", 2, 0, 0)];
    let new = vec![nic("a", 1, u64::MAX, 1), nic("b", 2, u64::MAX, 1)];
    assert_eq!(network_delta(&old, &new), (u64::MAX, 2));
}

#[test]
fn interface_totals_sum_and_saturate() {
    assert_eq!(network_totals(&[]), (0, 0));
    assert_eq!(
        network_totals(&[nic("a", 1, 5, 6), nic("b", 2, 10, 20)]),
        (15, 26)
    );
    assert_eq!(
        network_totals(&[nic("a", 1, u64::MAX, 6), nic("b", 2, 10, 20)]),
        (u64::MAX, 26)
    );
}

#[test]
fn targets_check_ports_labels_and_brackets() {
    assert!(valid_target("a-b.example:65535"));
    assert!(valid_target("[::1]:1"));
    assert!(!valid_target("[:80"));
    assert!(!valid_target("[::1]"));
    assert!(!valid_target("example.com"));
    assert!(!valid_target("exa_mple.com:80"));
    assert!(!valid_target("a-.example:80"));
    assert!(!valid_target(&format!("{}.com:80", "a".repeat(64))));
    assert!(valid_target(&format!("{}.com:80", "a".repeat(63))));
    assert!(!valid_target(&format!("{}:80", "a.".repeat(127))));
    assert!(!valid_target("例子.com:80"));
    assert!(valid_target("host:+80"));
    assert!(!valid_target("host:-80"));
}

#[test]
fn default_settings_probe_the_three_carriers_every_thirty_seconds() {
    let targets = LatencyTargets::default();
    assert_eq!(targets.telecom, "ha-ct-v4.ip.zstaticcdn.com:80");
    assert_eq!(targets.unicom, "ha-cu-v4.ip.zstaticcdn.com:80");
    assert_eq!(targets.mobile, "ha-cm-v4.ip.zstaticcdn.com:80");
    assert_eq!(targets.interval_seconds, DEFAULT_LATENCY_INTERVAL_SECS);
    assert!(valid_targets(&targets));
    let site = SiteSettings::default();
    assert_eq!(site.name, "Monitor");
    assert_eq!(site.description, "服务器状态");
    assert_eq!(site.footer, "");
    let settings = AppSettings::default();
    assert_eq!(settings.latency, targets);
    assert_eq!(settings.latency_revision, 0);
}

#[test]
fn target_sets_compare_by_all_fields() {
    let a = LatencyTargets::default();
    let mut b = LatencyTargets::default();
    assert!(a.same_as(&b));
    b.interval_seconds = 60;
    assert!(!a.same_as(&b));
    let mut c = LatencyTargets::default();
    c.mobile = "example.com:443".into();
    assert!(!a.same_as(&c));
    assert!(!valid_targets(&LatencyTargets {
        telecom: "bad".into(),
        ..LatencyTargets::default()
    }));
}

#[test]
fn reordering_the_current_snapshot_keeps_the_traffic() {
    let old = vec![nic("eth0", 1, 100, 200), nic("eth1", 2, 10, 20)];
    let current = vec![nic("eth0", 1, 130, 260), nic("eth1", 2, 5, 25), nic("wl0", 3, 9, 9)];
    let reordered = vec![current[2].clone(), current[0].clone(), current[1].clone()];
    assert_eq!(network_delta(&old, &current), (35, 65));
    assert_eq!(network_delta(&old, &reordered), (35, 65));
    let huge = vec![nic("eth0", 1, 0, 0), nic("eth1", 2, 0, 0)];
    let grown = vec![nic("eth1", 2, u64::MAX, 1), nic("eth0", 1, u64::MAX, 2)];
    assert_eq!(network_delta(&huge, &grown), (u64::MAX, 3));
}

#[test]
fn valid_targets_split_at_their_last_colon() {
    assert!(valid_target("a-b.example:65535"));
    assert!(!valid_target("a-b.example:65536"));
    assert!(!valid_target("a-b.example:"));
    assert!(!valid_target(":80"));
    assert!(!valid_target("a:b.example:80"));
    assert!(valid_target("[::1]:80"));
    assert!(!valid_target("a_b.example:80"));
}
