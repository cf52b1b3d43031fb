use monitor::accounting::{
    accept_latency_sample, minute_of, node_online, traffic_delta, NodeProgress, ReportCounters,
    SampleTag, TrafficState,
};
use monitor::model::NetworkCounter;

/// 2026-02-01T00:00:00Z.
fn february_first() -> i64 {
    chrono::DateTime::parse_from_rfc3339("2026-02-01T00:00:00Z")
        .unwrap()
        .timestamp()
}

fn nic(name: &str, index: u32, rx: u64, tx: u64) -> NetworkCounter {
    NetworkCounter {
        name: name.into(),
        index,
        rx,
        tx,
    }
}

fn report(boot: &str, rx: u64, tx: u64, network: Vec<NetworkCounter>) -> ReportCounters {
    ReportCounters {
        boot_id: boot.into(),
        net_rx_total: rx,
        net_tx_total: tx,
        network,
    }
}

#[test]
fn traffic_uses_a_baseline_and_survives_reboots() {
    assert_eq!(traffic_delta("", 0, "boot-a", 50_000), 0);
    assert_eq!(traffic_delta("boot-a", 50_000, "boot-a", 51_250), 1_250);
    assert_eq!(traffic_delta("boot-a", 51_250, "boot-b", 400), 400);
    assert_eq!(traffic_delta("boot-b", 400, "boot-b", 100), 0);
}

#[test]
fn offline_month_and_day_rollover_do_not_reuse_old_totals() {
    let mut state = TrafficState::new();
    state.month_key = "2026-01".into();
    state.day_key = "2026-01-31".into();
    state.month_rx = 100;
    state.day_rx = 10;
    state.total_rx = 1000;
    let at = february_first();
    let view = state.view_at(at);
    assert_eq!((view.month_rx, view.day_rx, view.total_rx), (0, 0, 1000));
    assert!(!node_online(false, true, 1_780_000_000, at));
}

#[test]
fn current_period_totals_are_shown() {
    let mut state = TrafficState::new();
    state.month_key = "2026-02".into();
    state.day_key = "2026-02-01".into();
    state.month_rx = 100;
    state.month_tx = 5;
    state.day_rx = 10;
    state.day_tx = 1;
    let view = state.view_at(february_first() + 3600);
    assert_eq!(
        (view.month_rx, view.month_tx, view.day_rx, view.day_tx),
        (100, 5, 10, 1)
    );
    let next_day = state.view_at(february_first() + 86_400);
    assert_eq!((next_day.month_rx, next_day.day_rx), (100, 0));
}

#[test]
fn recording_restarts_the_month_and_day_totals() {
    let at = february_first();
    let mut state = TrafficState::new();
    assert_eq!(state.record(report("boot", 1000, 2000, vec![]), at - 1), (0, 0));
    assert_eq!(state.month_key, "2026-01");
    assert_eq!(state.day_key, "2026-01-31");
    assert_eq!(state.record(report("boot", 1500, 2600, vec![]), at - 1), (500, 600));
    assert_eq!((state.month_rx, state.day_rx, state.total_rx), (500, 500, 500));
    assert_eq!(state.record(report("boot", 1700, 2700, vec![]), at), (200, 100));
    assert_eq!(state.month_key, "2026-02");
    assert_eq!(state.day_key, "2026-02-01");
    assert_eq!((state.month_rx, state.month_tx), (200, 100));
    assert_eq!((state.day_rx, state.day_tx), (200, 100));
    assert_eq!((state.total_rx, state.total_tx), (700, 700));
}

#[test]
fn interface_counters_are_preferred_within_one_boot() {
    let at = february_first();
    let mut state = TrafficState::new();
    state.record(report("boot", 100, 100, vec![nic("eth0", 2, 100, 100)]), at);
    let delta = state.record(report("boot", 10, 10, vec![nic("eth0", 2, 130, 150)]), at);
    assert_eq!(delta, (30, 50));
    let rebooted = state.record(report("other", 7, 9, vec![nic("eth0", 2, 1, 1)]), at);
    assert_eq!(rebooted, (7, 9));
    let no_interfaces = state.record(report("other", 20, 10, vec![]), at);
    assert_eq!(no_interfaces, (13, 1));
    assert_eq!(state.last_rx_counter, 20);
    assert_eq!(state.boot_id, "other");
}

#[test]
fn totals_never_decrease_and_saturate() {
    let at = february_first();
    let mut state = TrafficState::new();
    state.record(report("boot", 0, 0, vec![]), at);
    state.total_rx = u64::MAX - 1;
    state.record(report("boot", 10, 0, vec![]), at);
    assert_eq!(state.total_rx, u64::MAX);
    let before = state.total_tx;
    state.record(report("boot", 10, 0, vec![]), at);
    assert!(state.total_tx >= before);
}

fn progress() -> NodeProgress {
    NodeProgress {
        traffic: TrafficState::new(),
        last_seen: 0,
        last_sample_minute: 0,
        latency_sample: None,
    }
}

#[test]
fn queued_reports_record_each_latency_round_once() {
    let at = february_first();
    let mut node = progress();
    let sample = Some(SampleTag { id: 1, revision: 0 });
    let first = node.apply_report(report("boot", 1, 1, vec![]), sample, 0, at);
    assert!(first.record_latency);
    let second = node.apply_report(report("boot", 1, 1, vec![]), sample, 0, at + 2);
    assert!(!second.record_latency);
    assert_eq!(node.latency_sample, sample);
    let stale = node.apply_report(
        report("boot", 1, 1, vec![]),
        Some(SampleTag { id: 2, revision: 0 }),
        1,
        at + 4,
    );
    assert!(!stale.record_latency);
    assert_eq!(node.latency_sample, sample);
    assert_eq!(node.last_seen, at + 4);
}

#[test]
fn one_resource_sample_per_minute() {
    let minute_start = february_first();
    let mut node = progress();
    assert!(node.apply_report(report("b", 0, 0, vec![]), None, 0, minute_start).write_sample);
    assert_eq!(node.last_sample_minute, minute_start / 60);
    assert!(!node.apply_report(report("b", 0, 0, vec![]), None, 0, minute_start + 59).write_sample);
    assert!(node.apply_report(report("b", 0, 0, vec![]), None, 0, minute_start + 60).write_sample);
    assert!(!node.apply_report(report("b", 0, 0, vec![]), None, 0, minute_start + 30).write_sample);
}

#[test]
fn latency_rounds_need_the_current_revision_and_a_new_id() {
    let a = SampleTag { id: 1, revision: 3 };
    assert!(accept_latency_sample(Some(a), None, 3));
    assert!(!accept_latency_sample(Some(a), Some(a), 3));
    assert!(accept_latency_sample(Some(a), Some(SampleTag { id: 2, revision: 3 }), 3));
    assert!(!accept_latency_sample(Some(a), None, 4));
    assert!(!accept_latency_sample(None, None, 3));
}

#[test]
fn minutes_round_towards_minus_infinity() {
    assert_eq!(minute_of(0), 0);
    assert_eq!(minute_of(59), 0);
    assert_eq!(minute_of(60), 1);
    assert_eq!(minute_of(-1), -1);
    assert_eq!(minute_of(-60), -1);
    assert_eq!(minute_of(-61), -2);
    assert_eq!(minute_of(i64::MIN), i64::MIN.div_euclid(60));
}

#[test]
fn online_means_connected_with_metrics_and_recent() {
    assert!(node_online(true, true, 100, 100));
    assert!(node_online(true, true, 100, 112));
    assert!(!node_online(true, true, 100, 113));
    assert!(!node_online(true, true, 100, 99));
    assert!(!node_online(true, false, 100, 100));
    assert!(!node_online(false, true, 100, 100));
}

#[test]
fn recording_in_given_periods_restarts_month_and_day_totals() {
    let mut state = TrafficState::new();
    state.record_in(report("boot", 1000, 2000, vec![]), "2026-01".into(), "2026-01-31".into());
    state.record_in(report("boot", 1100, 2300, vec![]), "2026-01".into(), "2026-01-31".into());
    let january = state.view_in("2026-01", "2026-01-31");
    assert_eq!(
        (january.month_rx, january.month_tx, january.day_rx, january.day_tx),
        (100, 300, 100, 300)
    );
    let february = state.view_in("2026-02", "2026-02-01");
    assert_eq!(
        (february.month_rx, february.day_rx, february.total_rx),
        (0, 0, 100)
    );
    let delta = state.record_in(
        report("boot", 1150, 2310, vec![]),
        "2026-02".into(),
        "2026-02-01".into(),
    );
    assert_eq!(delta, (50, 10));
    assert_eq!((state.month_rx, state.day_rx, state.total_rx), (50, 50, 150));
    assert_eq!(state.month_key, "2026-02");
    assert_eq!(state.day_key, "2026-02-01");
}

#[test]
fn reports_applied_in_given_periods_match_reports_applied_at_a_time() {
    let mut progress = NodeProgress {
        traffic: TrafficState::new(),
        last_seen: 0,
        last_sample_minute: 0,
        latency_sample: None,
    };
    let at = february_first();
    let first = progress.apply_report_in(
        report("boot", 10, 20, vec![]),
        None,
        0,
        at,
        "2026-02".into(),
        "2026-02-01".into(),
    );
    assert_eq!((first.delta_rx, first.delta_tx), (0, 0));
    assert!(first.write_sample);
    let mut other = progress.clone();
    let by_keys = progress.apply_report_in(
        report("boot", 15, 26, vec![]),
        None,
        0,
        at + 5,
        "2026-02".into(),
        "2026-02-01".into(),
    );
    let by_time = other.apply_report(report("boot", 15, 26, vec![]), None, 0, at + 5);
    assert_eq!((by_keys.delta_rx, by_keys.delta_tx), (5, 6));
    assert_eq!((by_time.delta_rx, by_time.delta_tx), (5, 6));
    assert_eq!(progress.traffic.month_key, other.traffic.month_key);
    assert_eq!(progress.traffic.day_rx, other.traffic.day_rx);
    assert!(!by_keys.write_sample);
}
