use agentless_monitor::probe::{
    assemble_snapshot, collected_families, is_family_empty, ping_target, pings_from_output,
    MetricFamily, FAILURE_THRESHOLD, PROBE_SECTIONS,
};

fn full_sections() -> Vec<String> {
    vec![
        "cpu  100 0 100 700 100 0 0\n".to_string(),
        "0.52 0.58 0.59 1/123 4567\n".to_string(),
        "4\n".to_string(),
        " Intel(R) Xeon(R)\n".to_string(),
        "MemTotal: 1000 kB\nMemFree: 400 kB\n".to_string(),
        "              total used free shared buff/cache available\nMem: 5000 3000 2000 0 0 2500\nSwap: 0 0 0\n".to_string(),
        "Filesystem Size Used Avail Use% Mounted on\n/dev/sda1 10G 4G 6G 40% /\n".to_string(),
        "h1\nh2\n  eth0: 1000 10 1 0 0 0 0 0 2000 20 2 0 0 0 0 0\n".to_string(),
        "web01\n".to_string(),
        "Linux\n".to_string(),
        "5.15.0\n".to_string(),
        "x86_64\n".to_string(),
        "12345.67 54321.00\n".to_string(),
        "h1\nh2\ntcp 0 0 0.0.0.0:22 0.0.0.0:* LISTEN\n".to_string(),
    ]
}

fn joined(n: usize) -> String {
    full_sections()[..n].join("\u{1e}")
}

const PINGS: &str = "time=23.4 ms\u{1e}100% packet loss\u{1e}time=5 ms\u{1e}time=9.25 ms";

#[test]
fn full_output_reads_every_family() {
    let c = assemble_snapshot("web01", 1700, &joined(PROBE_SECTIONS), Some(PINGS)).unwrap();
    assert!(c.degraded.is_empty());
    let d = &c.data;
    assert_eq!(d.server_id, "web01");
    assert_eq!(d.timestamp, 1700);
    assert_eq!(d.cpu.usage_milli_percent, 20_000);
    assert_eq!(d.cpu.load_average_milli, [520, 580, 590]);
    assert_eq!(d.cpu.cores, 4);
    assert_eq!(d.cpu.model, "Intel(R) Xeon(R)");
    assert_eq!(d.memory.total, 1000 * 1024);
    assert_eq!(d.memory.used, 600 * 1024);
    assert_eq!(d.disks.len(), 1);
    assert_eq!(d.network.len(), 1);
    assert_eq!(d.network[0].interface, "eth0");
    assert_eq!(d.ports.len(), 1);
    assert_eq!(d.ports[0].port, 22);
    assert_eq!(d.system_info.hostname, "web01");
    assert_eq!(d.system_info.os, "Linux");
    assert_eq!(d.system_info.kernel, "5.15.0");
    assert_eq!(d.system_info.architecture, "x86_64");
    assert_eq!(d.system_info.uptime, 12345);
    assert_eq!(d.ping_tests.len(), 4);
    assert_eq!(d.ping_tests[0].latency_micros, Some(23_400));
    assert!(!d.ping_tests[1].success);
    assert_eq!(d.ping_tests[2].latency_micros, Some(5_000));
    assert_eq!(d.ping_tests[3].latency_micros, Some(9_250));
    assert_eq!(d.ping_tests[3].target, "github.com");
}

#[test]
fn output_missing_last_section_degrades_only_ports() {
    let c = assemble_snapshot("s", 1, &joined(PROBE_SECTIONS - 1), Some(PINGS)).unwrap();
    assert_eq!(c.degraded, vec![MetricFamily::Ports]);
    assert!(c.data.ports.is_empty());
    assert_eq!(c.data.system_info.hostname, "web01");
    assert_eq!(c.data.cpu.usage_milli_percent, 20_000);
    assert_eq!(c.data.disks.len(), 1);
}

#[test]
fn short_output_degrades_missing_families_to_defaults() {
    let c = assemble_snapshot("s", 1, &joined(8), Some(PINGS)).unwrap();
    assert_eq!(c.degraded, vec![MetricFamily::System, MetricFamily::Ports]);
    assert_eq!(c.data.system_info.hostname, "");
    assert_eq!(c.data.system_info.uptime, 0);
    assert!(c.data.ports.is_empty());
    assert_eq!(c.data.network.len(), 1);
    assert_eq!(c.data.memory.total, 1000 * 1024);
}

#[test]
fn too_many_degraded_families_fail_the_collection() {
    let e = assemble_snapshot("s", 1, &joined(7), Some(PINGS)).unwrap_err();
    assert_eq!(e.degraded, vec![MetricFamily::Network, MetricFamily::System, MetricFamily::Ports]);
    assert_eq!(e.degraded.len(), FAILURE_THRESHOLD);
}

#[test]
fn unreadable_cpu_and_memory_degrade_to_zero() {
    let mut secs = full_sections();
    secs[0] = "garbage\n".to_string();
    secs[4] = "garbage\n".to_string();
    secs[5] = "garbage\n".to_string();
    let out = secs.join("\u{1e}");
    let c = assemble_snapshot("s", 1, &out, Some(PINGS)).unwrap();
    assert_eq!(c.degraded, vec![MetricFamily::Cpu, MetricFamily::Memory]);
    assert_eq!(c.data.cpu.usage_milli_percent, 0);
    assert_eq!(c.data.cpu.cores, 0);
    assert_eq!(c.data.cpu.model, "");
    assert_eq!(c.data.memory.total, 0);
}

#[test]
fn missing_ping_round_trip_degrades_ping() {
    let c = assemble_snapshot("s", 1, &joined(PROBE_SECTIONS), None).unwrap();
    assert_eq!(c.degraded, vec![MetricFamily::Ping]);
    assert!(c.data.ping_tests.is_empty());
}

#[test]
fn ping_output_with_fewer_sections_fails_missing_targets() {
    let p = pings_from_output("time=1 ms");
    assert_eq!(p.len(), 4);
    assert!(p[0].success);
    assert!(!p[1].success && p[1].error.is_some());
    assert_eq!(p[1].target, "1.1.1.1");
}

#[test]
fn family_labels() {
    assert_eq!(MetricFamily::Cpu.label(), "CPU");
    assert_eq!(MetricFamily::Disk.label(), "Disks");
    assert_eq!(MetricFamily::Ping.label(), "Ping");
}

#[test]
fn collected_families_exclude_degraded() {
    let got = collected_families(&vec![MetricFamily::Disk, MetricFamily::Ping]);
    assert_eq!(
        got,
        vec![MetricFamily::Cpu, MetricFamily::Memory, MetricFamily::Network, MetricFamily::System, MetricFamily::Ports]
    );
    assert_eq!(collected_families(&vec![]).len(), 7);
}

#[test]
fn empty_families_are_detected() {
    let c = assemble_snapshot("s", 1, &joined(PROBE_SECTIONS - 1), Some(PINGS)).unwrap();
    assert!(is_family_empty(&c.data, MetricFamily::Ports));
    assert!(!is_family_empty(&c.data, MetricFamily::Cpu));
    assert!(!is_family_empty(&c.data, MetricFamily::System));
}

#[test]
fn ping_targets_in_order() {
    assert_eq!((0..4).map(ping_target).collect::<Vec<_>>(), vec!["8.8.8.8", "1.1.1.1", "google.com", "github.com"]);
}

#[test]
fn memory_falls_back_to_free_output() {
    let mut secs = full_sections();
    secs[4] = "garbage\n".to_string();
    let c = assemble_snapshot("s", 1, &secs.join("\u{1e}"), Some(PINGS)).unwrap();
    assert!(c.degraded.is_empty());
    assert_eq!((c.data.memory.total, c.data.memory.used, c.data.memory.available), (5000, 3000, 2500));
}
