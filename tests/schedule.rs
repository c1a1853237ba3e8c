use agentless_monitor::config::AppConfig;
use agentless_monitor::history::{MetricsHistory, HISTORY_LIMIT};
use agentless_monitor::models::{
    AuthMethod, CpuInfo, CreateServerRequest, MemoryInfo, MonitoringData, Server, ServerStatus,
    SystemInfo, UpdateServerRequest,
};
use agentless_monitor::schedule::{
    config_path_from_ssh_output, connection_stats, due_servers, is_due, status_counts, local_server, mark_connecting, parse_ssh_config, record_connect_error,
    record_connected, record_failure,
    record_success, servers_from_hosts, SshHost, LOCAL_INTERVAL_SECS,
};

fn host(name: &str, hostname: &str, user: &str) -> SshHost {
    SshHost { name: name.to_string(), host: hostname.to_string(), port: 22, username: user.to_string() }
}

fn snapshot(ts: u64) -> MonitoringData {
    MonitoringData {
        server_id: "s".to_string(),
        timestamp: ts,
        cpu: CpuInfo { usage_milli_percent: 0, load_average_milli: [0, 0, 0], cores: 1, model: String::new() },
        memory: MemoryInfo { total: 0, used: 0, free: 0, available: 0, swap_total: 0, swap_used: 0, swap_free: 0 },
        disks: Vec::new(),
        network: Vec::new(),
        ports: Vec::new(),
        ping_tests: Vec::new(),
        system_info: SystemInfo {
            hostname: String::new(),
            os: String::new(),
            kernel: String::new(),
            uptime: 0,
            architecture: String::new(),
        },
    }
}

#[test]
fn five_new_hosts_are_staggered_five_seconds_apart() {
    let hosts: Vec<SshHost> = (0..5).map(|i| host(&format!("h{}", i), "10.0.0.1", "root")).collect();
    let servers = servers_from_hosts(&hosts, 1_000);
    let due: Vec<u64> = servers.iter().map(|s| s.next_monitoring).collect();
    assert_eq!(due, vec![1_000, 1_005, 1_010, 1_015, 1_020]);
    assert!(servers.iter().all(|s| matches!(s.status, ServerStatus::Offline)));
    assert_eq!(servers[2].id, "h2");
    assert_eq!(servers[2].monitoring_interval, 30);
}

#[test]
fn hosts_without_name_or_user_are_skipped_but_keep_their_slot() {
    let hosts = vec![host("a", "1.1.1.1", "u"), host("b", "", "u"), host("c", "3.3.3.3", "")];
    let hosts = [hosts, vec![host("d", "4.4.4.4", "u")]].concat();
    let servers = servers_from_hosts(&hosts, 100);
    assert_eq!(servers.len(), 2);
    assert_eq!(servers[1].id, "d");
    assert_eq!(servers[1].next_monitoring, 115);
}

#[test]
fn ssh_config_entries_with_defaults() {
    let text = "# fleet\nHost web\n  HostName 10.0.0.5\n  Port 2222\n  User ops\n\nHost db\n  Port nope\nHost cache\n  User  admin \n";
    let hosts = parse_ssh_config(text, "me");
    assert_eq!(hosts.len(), 3);
    assert_eq!((hosts[0].name.as_str(), hosts[0].host.as_str(), hosts[0].port, hosts[0].username.as_str()), ("web", "10.0.0.5", 2222, "ops"));
    assert_eq!((hosts[1].name.as_str(), hosts[1].host.as_str(), hosts[1].port, hosts[1].username.as_str()), ("db", "db", 22, "me"));
    assert_eq!(hosts[2].username, "admin");
    assert_eq!(hosts[2].host, "cache");
}

#[test]
fn ssh_config_ignores_settings_before_any_host() {
    let hosts = parse_ssh_config("HostName x\nUser y\n", "me");
    assert!(hosts.is_empty());
}

#[test]
fn outcome_updates_status_and_cadence() {
    let mut s = local_server("me".to_string(), 50);
    assert_eq!(s.id, "local");
    assert_eq!(s.monitoring_interval, LOCAL_INTERVAL_SECS);
    assert!(is_due(&s, 50));
    mark_connecting(&mut s);
    assert!(matches!(s.status, ServerStatus::Connecting));
    record_success(&mut s, 60);
    assert!(matches!(s.status, ServerStatus::Online));
    assert_eq!(s.last_seen, Some(60));
    assert_eq!(s.next_monitoring, 63);
    assert!(!is_due(&s, 62));
    record_failure(&mut s, 70, "down".to_string());
    assert!(matches!(s.status, ServerStatus::Error(ref m) if m == "down"));
    assert_eq!(s.next_monitoring, 73);
    assert_eq!(s.last_seen, Some(60));
    s.next_monitoring = u64::MAX - 1;
    record_success(&mut s, u64::MAX - 1);
    assert_eq!(s.next_monitoring, u64::MAX);
}

#[test]
fn due_servers_in_order() {
    let mut a = local_server("me".to_string(), 10);
    let b = local_server("me".to_string(), 30);
    let c = local_server("me".to_string(), 5);
    a.next_monitoring = 20;
    assert_eq!(due_servers(&vec![a, b, c], 20), vec![0, 2]);
}

#[test]
fn created_and_updated_servers() {
    let req = CreateServerRequest {
        name: "n".to_string(),
        host: "h".to_string(),
        port: 22,
        username: "u".to_string(),
        auth_method: AuthMethod::SshConfig,
        proxy_config: None,
    };
    let fresh = Server::create(req.clone(), 9);
    assert_eq!(fresh.id.len(), 36);
    assert_eq!(fresh.name, "n");
    assert!(fresh.last_seen.is_none() && fresh.connection_id.is_none());
    assert_eq!(fresh.updated_at, 9);
    let mut s = Server::from_request(req, "id1".to_string(), 9);
    assert!(matches!(s.status, ServerStatus::Offline));
    assert_eq!(s.next_monitoring, 9);
    assert_eq!(s.monitoring_interval, 30);
    let up = UpdateServerRequest {
        name: "n2".to_string(),
        host: "h2".to_string(),
        port: 2200,
        username: "u2".to_string(),
        auth_method: AuthMethod::Password("p".to_string()),
        proxy_config: None,
    };
    s.apply_update(up, 11);
    assert_eq!((s.name.as_str(), s.port, s.updated_at, s.created_at), ("n2", 2200, 11, 9));
}

#[test]
fn history_keeps_the_newest_thousand() {
    let mut h = MetricsHistory::new();
    for i in 0..(HISTORY_LIMIT as u64 + 1) {
        h.add_monitoring_data("s".to_string(), snapshot(i));
    }
    h.add_monitoring_data("t".to_string(), snapshot(7));
    assert_eq!(h.get_latest_monitoring_data("s").unwrap().timestamp, 1000);
    let all = h.get_historical_data("s", 5000);
    assert_eq!(all.len(), HISTORY_LIMIT);
    assert_eq!(all[0].timestamp, 1000);
    assert_eq!(all[HISTORY_LIMIT - 1].timestamp, 1);
    let two = h.get_historical_data("s", 2);
    assert_eq!(two.iter().map(|d| d.timestamp).collect::<Vec<_>>(), vec![1000, 999]);
    assert_eq!(h.get_historical_data("t", 10).len(), 1);
    assert!(h.get_latest_monitoring_data("none").is_none());
}

#[test]
fn default_config_values() {
    let c = AppConfig::default();
    assert_eq!(c.server_port, 8080);
    assert_eq!(c.log_level, "info");
    assert_eq!((c.monitoring_interval, c.ping_timeout, c.ssh_timeout), (30, 5, 10));
    assert!(c.fallback_password.is_none());
}

#[test]
fn connection_test_outcomes_leave_schedule_alone() {
    let mut s = local_server("me".to_string(), 10);
    record_connect_error(&mut s, "refused".to_string());
    assert!(matches!(s.status, ServerStatus::Error(ref m) if m == "refused"));
    assert_eq!(s.next_monitoring, 10);
    record_connected(&mut s, 20);
    assert!(matches!(s.status, ServerStatus::Online));
    assert_eq!(s.last_seen, Some(20));
    assert_eq!(s.next_monitoring, 10);
}

#[test]
fn connection_ages_and_status_counts() {
    let mut a = local_server("me".to_string(), 100);
    let mut b = local_server("me".to_string(), 40);
    let mut c = local_server("me".to_string(), 0);
    c.last_seen = None;
    c.status = ServerStatus::Offline;
    b.status = ServerStatus::Error("x".to_string());
    a.last_seen = Some(90);
    let st = connection_stats(&vec![a.clone(), b.clone(), c.clone()], 100);
    assert_eq!(st.active_connections, 2);
    assert_eq!(st.oldest_connection_age, 60);
    assert_eq!(st.youngest_connection_age, 10);
    let counts = status_counts(&vec![a, b, c]);
    assert_eq!((counts.online, counts.offline, counts.error, counts.connecting), (1, 1, 1, 0));
}

#[test]
fn local_server_fields() {
    let s = local_server("me".to_string(), 7);
    assert_eq!((s.name.as_str(), s.host.as_str(), s.port), ("Local Machine", "localhost", 22));
    assert!(matches!(s.auth_method, AuthMethod::SshConfig));
}

#[test]
fn config_path_from_client_output() {
    let out = "user me\nuserknownhostsfile /home/me/.ssh/known_hosts2\nuserknownhostsfile /home/me/.ssh/known_hosts /etc/ssh/x\n";
    assert_eq!(config_path_from_ssh_output(out), Some("/home/me/.ssh/config".to_string()));
    assert_eq!(config_path_from_ssh_output("user me\n"), None);
}
