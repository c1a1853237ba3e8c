use agentless_monitor::models::ParseError;
use agentless_monitor::parse::MonitoringService;

const GIB: u64 = 1024 * 1024 * 1024;

#[test]
fn df_line_gives_binary_sizes_and_percentage() {
    let out = "Filesystem Size Used Avail Use% Mounted on\n/dev/sda1 10G 4G 6G 40% /\n";
    let disks = MonitoringService::parse_df_output(out).unwrap();
    assert_eq!(disks.len(), 1);
    let d = &disks[0];
    assert_eq!(d.device, "/dev/sda1");
    assert_eq!(d.total, 10 * GIB);
    assert_eq!(d.used, 4 * GIB);
    assert_eq!(d.free, 6 * GIB);
    assert_eq!(d.usage_milli_percent, 40_000);
    assert_eq!(d.mount_point, "/");
    assert_eq!(d.filesystem, "unknown");
}

#[test]
fn df_with_bad_size_fails() {
    let out = "Filesystem Size Used Avail Use% Mounted on\n/dev/sda1 10X 4G 6G 40% /\n";
    assert_eq!(MonitoringService::parse_df_output(out).unwrap_err(), ParseError);
}

#[test]
fn df_skips_short_lines_and_reads_filesystem_column() {
    let out = "header\nshort line\n/dev/sdb1 1.5K 512 1K 50% /data ext4\n";
    let disks = MonitoringService::parse_df_output(out).unwrap();
    assert_eq!(disks.len(), 1);
    assert_eq!(disks[0].total, 1536);
    assert_eq!(disks[0].used, 512);
    assert_eq!(disks[0].free, 1024);
    assert_eq!(disks[0].filesystem, "ext4");
    assert_eq!(disks[0].mount_point, "/data");
}

#[test]
fn meminfo_normalizes_kilobytes() {
    let out = "MemTotal:       16384000 kB\nMemFree:         8192000 kB\n";
    let m = MonitoringService::parse_meminfo(out).unwrap();
    assert_eq!(m.total, 16384000 * 1024);
    assert_eq!(m.free, 8192000 * 1024);
    assert_eq!(m.used, m.total - m.free);
    assert_eq!(m.used, 8192000 * 1024);
    assert_eq!(m.available, 0);
    assert_eq!(m.swap_total, 0);
}

#[test]
fn meminfo_reads_swap_and_available() {
    let out = "MemTotal: 100 kB\nMemFree: 40 kB\nMemAvailable: 60 kB\nBuffers: 7 kB\nSwapTotal: 10 kB\nSwapFree: 4 kB\n";
    let m = MonitoringService::parse_meminfo(out).unwrap();
    assert_eq!(m.available, 60 * 1024);
    assert_eq!(m.swap_total, 10 * 1024);
    assert_eq!(m.swap_free, 4 * 1024);
    assert_eq!(m.swap_used, 6 * 1024);
    assert_eq!(m.used, 60 * 1024);
}

#[test]
fn meminfo_with_more_free_than_total_reads_zero_used() {
    let out = "MemTotal: 10 kB\nMemFree: 40 kB\nSwapFree: 8 kB\n";
    let m = MonitoringService::parse_meminfo(out).unwrap();
    assert_eq!((m.total, m.free, m.used), (10 * 1024, 40 * 1024, 0));
    assert_eq!((m.swap_total, m.swap_free, m.swap_used), (0, 8 * 1024, 0));
}

#[test]
fn meminfo_without_keys_reads_zeros() {
    let m = MonitoringService::parse_meminfo("nothing here\nMemTotal: 99999999999999999999 kB\n").unwrap();
    assert_eq!((m.total, m.used, m.free, m.available), (0, 0, 0, 0));
}

#[test]
fn free_output_reads_memory_and_swap() {
    let out = "              total        used        free      shared  buff/cache   available\nMem:    1000 400 300 10 300 550\nSwap:   200 50 150\n";
    let m = MonitoringService::parse_free_output(out).unwrap();
    assert_eq!((m.total, m.used, m.free, m.available), (1000, 400, 300, 550));
    assert_eq!((m.swap_total, m.swap_used, m.swap_free), (200, 50, 150));
}

#[test]
fn free_output_too_short_fails() {
    assert!(MonitoringService::parse_free_output("total used\n").is_err());
    assert!(MonitoringService::parse_free_output("h\nMem: 1 2\nSwap: 1 2 3\n").is_err());
}

#[test]
fn sizes_use_binary_multipliers() {
    assert_eq!(MonitoringService::parse_size("1.5K"), Ok(1536));
    assert_eq!(MonitoringService::parse_size("512"), Ok(512));
    assert_eq!(MonitoringService::parse_size("10g"), Ok(10 * GIB));
    assert_eq!(MonitoringService::parse_size("2M"), Ok(2 * 1024 * 1024));
    assert_eq!(MonitoringService::parse_size("1T"), Ok(1024 * GIB));
    assert!(MonitoringService::parse_size("abc").is_err());
    assert!(MonitoringService::parse_size("").is_err());
}

#[test]
fn net_dev_reads_receive_and_transmit_groups() {
    let out = "Inter-|   Receive |  Transmit\n face |bytes packets|bytes packets\n  eth0: 1000 10 1 0 0 0 0 0 2000 20 2 0 0 0 0 0\n    lo: 5 6 7 0 0 0 0 0 8 9 x 0 0 0 0 0\n  bad: 1 2 3\n";
    let nets = MonitoringService::parse_net_dev(out).unwrap();
    assert_eq!(nets.len(), 2);
    assert_eq!(nets[0].interface, "eth0");
    assert_eq!((nets[0].rx_bytes, nets[0].rx_packets, nets[0].rx_errors), (1000, 10, 1));
    assert_eq!((nets[0].tx_bytes, nets[0].tx_packets, nets[0].tx_errors), (2000, 20, 2));
    assert_eq!(nets[1].interface, "lo");
    assert_eq!(nets[1].tx_errors, 0);
    assert!(nets[1].ip_addresses.is_empty());
}

#[test]
fn netstat_reads_listening_ports() {
    let out = "Active Internet connections (only servers)\nProto Recv-Q Send-Q Local Address Foreign Address State\ntcp 0 0 0.0.0.0:22 0.0.0.0:* LISTEN\nTCP6 0 0 :::80 :::* LISTEN\nudp 0 0 0.0.0.0:x 0.0.0.0:*\n";
    let ports = MonitoringService::parse_netstat(out).unwrap();
    assert_eq!(ports.len(), 2);
    assert_eq!(ports[0].port, 22);
    assert_eq!(ports[0].protocol, "tcp");
    assert_eq!(ports[0].state, "LISTEN");
    assert_eq!(ports[1].port, 80);
    assert_eq!(ports[1].protocol, "tcp6");
    assert!(ports[1].process.is_none() && ports[1].pid.is_none());
}

#[test]
fn unread_formats_give_nothing() {
    assert!(MonitoringService::parse_ss("anything").unwrap().is_empty());
    assert!(MonitoringService::parse_ifconfig("anything").unwrap().is_empty());
    assert!(MonitoringService::parse_lsblk_output("anything").unwrap().is_empty());
}

#[test]
fn load_average_in_thousandths() {
    assert_eq!(MonitoringService::parse_load_average("0.52 0.58 0.59 1/123 4567\n"), Ok([520, 580, 590]));
    assert_eq!(MonitoringService::parse_load_average("0.5"), Ok([0, 0, 0]));
    assert!(MonitoringService::parse_load_average("a b c").is_err());
}

#[test]
fn cpu_usage_excludes_idle_and_iowait() {
    let r = MonitoringService::parse_cpu_usage("cpu  100 0 100 700 100 0 0\ncpu0 1 2 3 4 5 6 7\n");
    assert_eq!(r, Ok(20_000));
}

#[test]
fn cpu_usage_of_zero_counters_is_zero() {
    assert_eq!(MonitoringService::parse_cpu_usage("cpu 0 0 0 0 0 0 0"), Ok(0));
}

#[test]
fn cpu_usage_from_top_summary() {
    assert_eq!(MonitoringService::parse_cpu_usage("Cpu(s):  12.5%us,  3.0%sy"), Ok(12_500));
    assert!(MonitoringService::parse_cpu_usage("no counters here").is_err());
}

#[test]
fn cpu_usage_from_counter_strings() {
    let caps: Vec<String> = ["1", "1", "1", "1", "0", "0", "0"].iter().map(|s| s.to_string()).collect();
    assert_eq!(MonitoringService::cpu_usage_from_counters(&caps), Ok(75_000));
    let short: Vec<String> = vec!["1".to_string()];
    assert!(MonitoringService::cpu_usage_from_counters(&short).is_err());
}

#[test]
fn ping_latency_from_time_token() {
    let out = "64 bytes from 8.8.8.8: icmp_seq=1 ttl=117 time=23.4 ms";
    assert_eq!(MonitoringService::extract_ping_latency(out), Some(23_400));
    assert_eq!(MonitoringService::extract_ping_latency("Request timeout"), None);
    assert_eq!(MonitoringService::latency_from_capture("7"), Some(7_000));
}

#[test]
fn ping_result_success_and_failure() {
    let ok = MonitoringService::ping_result("8.8.8.8", "time=23.4 ms");
    assert!(ok.success);
    assert_eq!(ok.latency_micros, Some(23_400));
    assert_eq!(ok.target, "8.8.8.8");
    assert!(ok.error.is_none());
    let bad = MonitoringService::ping_result("1.1.1.1", "100% packet loss");
    assert!(!bad.success);
    assert_eq!(bad.latency_micros, None);
    assert!(bad.error.is_some());
}

#[test]
fn sizes_keep_every_fraction_digit() {
    assert_eq!(MonitoringService::parse_size("0.0099K"), Ok(10));
    assert_eq!(MonitoringService::parse_size(".5K"), Ok(512));
    assert_eq!(MonitoringService::parse_size("5."), Ok(5));
    assert_eq!(MonitoringService::parse_size("1.0009765625K"), Ok(1025));
    assert_eq!(MonitoringService::parse_size("16383.99999999999999999999T"), Ok(16384 * 1024 * GIB - 1));
    assert!(MonitoringService::parse_size(".").is_err());
    assert!(MonitoringService::parse_size("1.2.3K").is_err());
    assert!(MonitoringService::parse_size("16777216T").is_err());
}

#[test]
fn netstat_protocol_lowercased_beyond_ascii() {
    let out = "h1\nh2\nÜDP 0 0 0.0.0.0:53 0.0.0.0:*\n";
    let ports = MonitoringService::parse_netstat(out).unwrap();
    assert_eq!(ports[0].protocol, "üdp");
    assert_eq!(ports[0].port, 53);
}
