use monitor::model::{LatencyTargets, NetworkCounter};
use monitor::probe::{
    agent_step, cpu_stat_in_range, detect_virtualization, disk_usage, is_process_entry, meminfo_in_range,
    parse_cpu_info, parse_cpu_stat, parse_meminfo, parse_network, parse_os_name,
    reconnect_delay, sampling_period, socket_count, target_update, valid_report_interval,
    websocket_endpoint,
    AgentAction, AgentEvent, AgentOptions, Memory, ProbeError,
};

#[test]
fn parses_network_and_ignores_loopback() {
    let fixture = "Inter-| Receive | Transmit\n face |bytes packets errs drop fifo frame compressed multicast|bytes packets errs drop fifo colls carrier compressed\n    lo: 100 0 0 0 0 0 0 0 200 0 0 0 0 0 0 0\n  eth0: 300 0 0 0 0 0 0 0 400 0 0 0 0 0 0 0\n";
    let counters = parse_network(fixture).unwrap();
    assert_eq!(
        counters,
        vec![NetworkCounter {
            name: "eth0".into(),
            index: 0,
            rx: 300,
            tx: 400
        }]
    );
}

#[test]
fn normalizes_websocket_url() {
    assert_eq!(
        websocket_endpoint("https://monitor.example.com/"),
        "wss://monitor.example.com/api/agent"
    );
    assert_eq!(
        websocket_endpoint("http://192.0.2.10:34331"),
        "ws://192.0.2.10:34331/api/agent"
    );
}

const HEADER: &str = "Inter-| Receive | Transmit\n face |bytes packets errs drop fifo frame compressed multicast|bytes packets errs drop fifo colls carrier compressed\n";

#[test]
fn network_parser_skips_virtual_links_and_reports_errors() {
    let text = format!(
        "{HEADER}docker0: 1 0 0 0 0 0 0 0 2 0 0 0 0 0 0 0\nveth12: 1 0 0 0 0 0 0 0 2 0 0 0 0 0 0 0\nwg0: 1 0 0 0 0 0 0 0 2 0 0 0 0 0 0 0\n  ens3: 10 0 0 0 0 0 0 0 20 0 0 0 0 0 0 0\nenp1s0:30 0 0 0 0 0 0 0 40 0 0 0 0 0 0 0\n"
    );
    let counters = parse_network(&text).unwrap();
    assert_eq!(counters.len(), 2);
    assert_eq!((counters[0].name.as_str(), counters[0].rx, counters[0].tx), ("ens3", 10, 20));
    assert_eq!((counters[1].name.as_str(), counters[1].rx, counters[1].tx), ("enp1s0", 30, 40));
    assert_eq!(
        parse_network(&format!("{HEADER}eth0: 1 2 3\n")),
        Err(ProbeError::NetworkFormat)
    );
    assert_eq!(
        parse_network(&format!("{HEADER}eth0: x 0 0 0 0 0 0 0 2 0\n")),
        Err(ProbeError::NetworkNumber)
    );
    assert_eq!(parse_network(HEADER), Ok(vec![]));
    assert_eq!(parse_network(""), Ok(vec![]));
    let many: String = (0..65)
        .map(|i| format!("eth{i}: 1 0 0 0 0 0 0 0 2 0 0 0 0 0 0 0\n"))
        .collect();
    assert_eq!(
        parse_network(&format!("{HEADER}{many}")),
        Err(ProbeError::TooManyInterfaces)
    );
    let sixty_four: String = (0..64)
        .map(|i| format!("eth{i}: 1 0 0 0 0 0 0 0 2 0 0 0 0 0 0 0\n"))
        .collect();
    assert_eq!(parse_network(&format!("{HEADER}{sixty_four}")).unwrap().len(), 64);
}

#[test]
fn endpoint_keeps_paths_and_other_schemes() {
    assert_eq!(
        websocket_endpoint("  wss://m.example/api/agent//  "),
        "wss://m.example/api/agent"
    );
    assert_eq!(websocket_endpoint("m.example:1"), "m.example:1/api/agent");
    assert_eq!(
        websocket_endpoint("https://m.example/base"),
        "wss://m.example/base/api/agent"
    );
}

#[test]
fn cpu_information_names_the_model_and_counts_processors() {
    let text = "processor\t: 0\nmodel name\t: Example CPU @ 2.0GHz\nprocessor\t: 1\nmodel name\t: Example CPU @ 2.0GHz\n";
    assert_eq!(
        parse_cpu_info(text),
        ("Example CPU @ 2.0GHz".to_owned(), 2)
    );
    assert_eq!(
        parse_cpu_info("Hardware : BCM2835\n"),
        ("BCM2835".to_owned(), 1)
    );
    assert_eq!(parse_cpu_info(""), ("Unknown CPU".to_owned(), 1));
}

#[test]
fn memory_figures_are_bytes_and_saturate() {
    let text = "MemTotal:        2048 kB\nMemFree:          100 kB\nMemAvailable:    1024 kB\nSwapTotal:        512 kB\nSwapFree:         600 kB\n";
    assert!(meminfo_in_range(text));
    assert_eq!(
        parse_meminfo(text),
        Memory {
            mem_total: 2048 * 1024,
            mem_used: 1024 * 1024,
            swap_total: 512 * 1024,
            swap_used: 0,
        }
    );
    assert_eq!(parse_meminfo(""), Memory::default());
    assert!(!meminfo_in_range("MemTotal: 18446744073709551615 kB\n"));
}

#[test]
fn cpu_times_sum_the_first_eight_columns() {
    let text = "cpu  10 20 30 40 50 60 70 80 90 100\ncpu0 1 2 3 4\n";
    assert!(cpu_stat_in_range(text));
    assert_eq!(parse_cpu_stat(text), Ok((360, 90)));
    assert_eq!(parse_cpu_stat("cpu 1 2 3 4\n"), Ok((10, 4)));
    assert_eq!(parse_cpu_stat("cpu 1 2 3\n"), Err(ProbeError::CpuFormat));
    assert_eq!(parse_cpu_stat(""), Err(ProbeError::CpuFormat));
    assert!(!cpu_stat_in_range("cpu 18446744073709551615 1 0 0\n"));
}

#[test]
fn os_name_comes_from_pretty_name() {
    assert_eq!(
        parse_os_name("NAME=\"Debian\"\nPRETTY_NAME=\"Debian GNU/Linux 12 (bookworm)\"\n"),
        "Debian GNU/Linux 12 (bookworm)"
    );
    assert_eq!(parse_os_name("PRETTY_NAME=Alpine"), "Alpine");
    assert_eq!(parse_os_name("NAME=x\n"), "Linux");
}

#[test]
fn virtualization_checks_in_order() {
    assert_eq!(detect_virtualization(true, "", "", true, ""), "docker");
    assert_eq!(detect_virtualization(false, "0::/LXC/x", "KVM", false, ""), "lxc");
    assert_eq!(detect_virtualization(false, "", "Standard PC (QEMU)", false, ""), "qemu");
    assert_eq!(detect_virtualization(false, "", "VMware Virtual Platform", false, ""), "vmware");
    assert_eq!(detect_virtualization(false, "", "", true, "hypervisor"), "xen");
    assert_eq!(detect_virtualization(false, "", "", false, "flags: hypervisor"), "virtualized");
    assert_eq!(detect_virtualization(false, "", "", false, "flags: fpu"), "unknown");
}

#[test]
fn socket_and_process_counts() {
    assert_eq!(socket_count("sl local\n0: a\n1: b\n"), 2);
    assert_eq!(socket_count("sl local\n"), 0);
    assert_eq!(socket_count(""), 0);
    assert!(is_process_entry("1234"));
    assert!(!is_process_entry("self"));
    assert!(!is_process_entry("12a"));
}

#[test]
fn disk_usage_multiplies_blocks_and_saturates() {
    assert_eq!(disk_usage(100, 40, 4096), (409_600, 245_760));
    assert_eq!(disk_usage(u64::MAX, 0, 2), (u64::MAX, u64::MAX));
    assert_eq!(disk_usage(10, 20, 1), (10, 0));
}

#[test]
fn reconnect_waits_double_up_to_thirty_seconds() {
    assert_eq!(reconnect_delay(2, false), (2, 4));
    assert_eq!(reconnect_delay(16, false), (16, 30));
    assert_eq!(reconnect_delay(30, false), (30, 30));
    assert_eq!(reconnect_delay(30, true), (2, 4));
    let mut backoff = 2;
    for _ in 0..10 {
        let (wait, next) = reconnect_delay(backoff, false);
        assert!((2..=30).contains(&wait));
        backoff = next;
    }
    assert_eq!(backoff, 30);
}

#[test]
fn report_interval_is_one_to_ten_seconds() {
    assert!(valid_report_interval(1, 0));
    assert!(valid_report_interval(9, 999_999_999));
    assert!(valid_report_interval(10, 0));
    assert!(!valid_report_interval(10, 1));
    assert!(!valid_report_interval(0, 999_999_999));
}

#[test]
fn announced_targets_apply_once_and_only_when_valid() {
    let targets = LatencyTargets::default();
    let current = Some((targets.clone(), 3));
    assert_eq!(target_update(&current, targets.clone(), 3), None);
    assert_eq!(
        target_update(&current, targets.clone(), 4),
        Some((targets.clone(), 4))
    );
    let bad = LatencyTargets {
        mobile: "nope".into(),
        ..LatencyTargets::default()
    };
    assert_eq!(target_update(&None, bad, 5), None);
    assert_eq!(target_update(&None, targets.clone(), 0), Some((targets, 0)));
}

#[test]
fn agent_options_clone_keeps_every_setting() {
    let options = AgentOptions {
        server: "https://m.example".into(),
        token: "n.secret".into(),
        interval: std::time::Duration::from_millis(2500),
        disk: "/".into(),
        telecom: "a.example:80".into(),
        unicom: "b.example:80".into(),
        mobile: "c.example:80".into(),
    };
    let copy = options.clone();
    assert_eq!(copy.interval, std::time::Duration::from_millis(2500));
    assert_eq!(copy.token, "n.secret");
    assert_eq!(copy.mobile, options.mobile);
}

#[test]
fn agent_decides_each_connection_event() {
    let targets = LatencyTargets::default();
    let current = Some((targets.clone(), 1));
    assert_eq!(
        agent_step(&current, AgentEvent::ReportDue { since_static_nanos: 299_999_999_999 }),
        AgentAction::SendReport { refresh_static: false }
    );
    assert_eq!(
        agent_step(&current, AgentEvent::ReportDue { since_static_nanos: 300_000_000_000 }),
        AgentAction::SendReport { refresh_static: true }
    );
    assert_eq!(
        agent_step(&current, AgentEvent::HeartbeatDue { since_heard_nanos: 45_000_000_000 }),
        AgentAction::SendPing
    );
    assert_eq!(
        agent_step(&current, AgentEvent::HeartbeatDue { since_heard_nanos: 45_000_000_001 }),
        AgentAction::HeartbeatLost
    );
    assert_eq!(
        agent_step(
            &current,
            AgentEvent::Announced {
                targets: targets.clone(),
                revision: 1
            }
        ),
        AgentAction::Nothing
    );
    assert_eq!(
        agent_step(
            &current,
            AgentEvent::Announced {
                targets: targets.clone(),
                revision: 2
            }
        ),
        AgentAction::SwitchTargets(targets, 2)
    );
    assert_eq!(
        agent_step(&current, AgentEvent::Ping(vec![1, 2])),
        AgentAction::SendPong(vec![1, 2])
    );
    assert_eq!(agent_step(&current, AgentEvent::Other), AgentAction::Nothing);
    assert_eq!(agent_step(&current, AgentEvent::Closed), AgentAction::Stop);
    assert_eq!(agent_step(&None, AgentEvent::Failed), AgentAction::Abort);
}

#[test]
fn sampling_follows_valid_announced_intervals() {
    assert_eq!(sampling_period(30, 60), 60);
    assert_eq!(sampling_period(30, 3600), 3600);
    assert_eq!(sampling_period(60, 9), 60);
    assert_eq!(sampling_period(60, 0), 60);
}

#[test]
fn endpoints_end_with_the_agent_path_and_are_stable() {
    for server in [
        "https://monitor.example.com/",
        "http:/",
        "  ",
        "ws://a.example/api/agent",
        "http://h.example//",
        "https:",
        "example.org:8080/base/",
    ] {
        let endpoint = websocket_endpoint(server);
        assert!(endpoint.ends_with("/api/agent"), "{server:?}");
        assert_eq!(websocket_endpoint(&endpoint), endpoint, "{server:?}");
    }
    assert_eq!(websocket_endpoint("http:/"), "http:/api/agent");
    assert_eq!(websocket_endpoint("  "), "/api/agent");
}

#[test]
fn left_out_lines_never_fail_and_counted_lines_keep_their_order() {
    let text = format!(
        "{HEADER}no colon here\nlo: broken\ntailscale0: x\nbr-1: 1 2\n eth1: 5 0 0 0 0 0 0 0 6 0\neth0: 7 0 0 0 0 0 0 0 8 0\n"
    );
    let counters = parse_network(&text).unwrap();
    let seen: Vec<(&str, u64, u64)> = counters
        .iter()
        .map(|c| (c.name.as_str(), c.rx, c.tx))
        .collect();
    assert_eq!(seen, vec![("eth1", 5, 6), ("eth0", 7, 8)]);
    assert!(counters.iter().all(|c| c.index == 0));
    assert_eq!(
        parse_network(&format!("{HEADER}eth0: 7 0 0 0 0 0 0 0 8 0\neth1: 1\n")),
        Err(ProbeError::NetworkFormat)
    );
}
