//! The records that the monitor keeps about servers and what it measured on them.
//!
//! Times are whole seconds since the Unix epoch. Fractional measurements are
//! kept in fixed point: a percentage or a load average in thousandths, a
//! latency in microseconds (thousandths of a millisecond).

use vstd::prelude::*;

verus! {

/// How the SSH client authenticates to a server.
#[derive(Debug, Clone)]
pub enum AuthMethod {
    /// The client's own configuration and keys.
    SshConfig,
    /// An explicit password.
    Password(String),
}

#[derive(Debug, Clone, Copy, PartialEq, Eq, Structural)]
pub enum ProxyType {
    JumpHost,
    Tunnel,
    Chain,
}

/// One further proxy in a chain.
#[derive(Debug, Clone)]
pub struct ProxyHop {
    pub proxy_type: ProxyType,
    pub proxy_host: String,
    pub proxy_port: u16,
    pub proxy_username: Option<String>,
    pub proxy_auth: Option<AuthMethod>,
}

/// A proxy that connections to a server go through, and the proxies that
/// it in turn is reached through, nearest first.
#[derive(Debug, Clone)]
pub struct ProxyConfig {
    pub proxy_type: ProxyType,
    pub proxy_host: String,
    pub proxy_port: u16,
    pub proxy_username: Option<String>,
    pub proxy_auth: Option<AuthMethod>,
    pub chain: Vec<ProxyHop>,
}

/// Settings shared by every SSH connection.
#[derive(Debug, Clone)]
pub struct ServerConfig {
    pub ssh_config_path: String,
    pub fallback_password: Option<String>,
    pub connection_timeout_secs: u64,
    pub keep_alive_interval_secs: u64,
}

#[derive(Debug, Clone)]
pub enum ServerStatus {
    Online,
    Offline,
    Connecting,
    Error(String),
}

/// A monitored host.
#[derive(Debug, Clone)]
pub struct Server {
    pub id: String,
    pub name: String,
    pub host: String,
    pub port: u16,
    pub username: String,
    pub auth_method: AuthMethod,
    pub proxy_config: Option<ProxyConfig>,
    pub created_at: u64,
    pub updated_at: u64,
    pub last_seen: Option<u64>,
    pub status: ServerStatus,
    /// Seconds between two collections.
    pub monitoring_interval: u64,
    /// When the next collection is due.
    pub next_monitoring: u64,
    pub connection_id: Option<String>,
}

#[derive(Debug, Clone)]
pub struct CpuInfo {
    /// Busy share of the CPU time since boot, in thousandths of a percent.
    pub usage_milli_percent: u64,
    /// The 1, 5 and 15 minute load averages, in thousandths.
    pub load_average_milli: [u64; 3],
    pub cores: u32,
    pub model: String,
}

/// Memory figures in bytes.
#[derive(Debug, Clone, Copy, PartialEq, Eq, Structural)]
pub struct MemoryInfo {
    pub total: u64,
    pub used: u64,
    pub free: u64,
    pub available: u64,
    pub swap_total: u64,
    pub swap_used: u64,
    pub swap_free: u64,
}

#[derive(Debug, Clone)]
pub struct DiskInfo {
    pub device: String,
    pub mount_point: String,
    pub total: u64,
    pub used: u64,
    pub free: u64,
    /// Thousandths of a percent.
    pub usage_milli_percent: u64,
    pub filesystem: String,
}

#[derive(Debug, Clone)]
pub struct NetworkInfo {
    pub interface: String,
    pub rx_bytes: u64,
    pub tx_bytes: u64,
    pub rx_packets: u64,
    pub tx_packets: u64,
    pub rx_errors: u64,
    pub tx_errors: u64,
    pub ip_addresses: Vec<String>,
}

#[derive(Debug, Clone)]
pub struct PortInfo {
    pub port: u16,
    pub protocol: String,
    pub state: String,
    pub process: Option<String>,
    pub pid: Option<u32>,
}

/// The outcome of one reachability probe.
#[derive(Debug, Clone)]
pub struct PingTest {
    pub target: String,
    /// Round trip time in microseconds.
    pub latency_micros: Option<u64>,
    pub success: bool,
    pub error: Option<String>,
}

#[derive(Debug, Clone)]
pub struct SystemInfo {
    pub hostname: String,
    pub os: String,
    pub kernel: String,
    pub uptime: u64,
    pub architecture: String,
}

/// One snapshot of a server's metrics.
#[derive(Debug, Clone)]
pub struct MonitoringData {
    pub server_id: String,
    pub timestamp: u64,
    pub cpu: CpuInfo,
    pub memory: MemoryInfo,
    pub disks: Vec<DiskInfo>,
    pub network: Vec<NetworkInfo>,
    pub ports: Vec<PortInfo>,
    pub ping_tests: Vec<PingTest>,
    pub system_info: SystemInfo,
}

/// A request to connect to a server, optionally with a password.
#[derive(Debug, Clone)]
pub struct ConnectRequest {
    pub password: Option<String>,
}

/// The fields of a new server.
#[derive(Debug, Clone)]
pub struct CreateServerRequest {
    pub name: String,
    pub host: String,
    pub port: u16,
    pub username: String,
    pub auth_method: AuthMethod,
    pub proxy_config: Option<ProxyConfig>,
}

/// The new fields of an existing server.
#[derive(Debug, Clone)]
pub struct UpdateServerRequest {
    pub name: String,
    pub host: String,
    pub port: u16,
    pub username: String,
    pub auth_method: AuthMethod,
    pub proxy_config: Option<ProxyConfig>,
}

/// Seconds between two collections of a server added by request.
pub const REQUESTED_INTERVAL_SECS: u64 = 30;

impl Server {
    /// A server created by request under `id` at `now`: offline, due at once.
    pub fn from_request(req: CreateServerRequest, id: String, now: u64) -> (r: Server)
        ensures
            r == (Server {
                id: id,
                name: req.name,
                host: req.host,
                port: req.port,
                username: req.username,
                auth_method: req.auth_method,
                proxy_config: req.proxy_config,
                created_at: now,
                updated_at: now,
                last_seen: None,
                status: ServerStatus::Offline,
                monitoring_interval: REQUESTED_INTERVAL_SECS,
                next_monitoring: now,
                connection_id: None,
            }),
    {
        Server {
            id,
            name: req.name,
            host: req.host,
            port: req.port,
            username: req.username,
            auth_method: req.auth_method,
            proxy_config: req.proxy_config,
            created_at: now,
            updated_at: now,
            last_seen: None,
            status: ServerStatus::Offline,
            monitoring_interval: REQUESTED_INTERVAL_SECS,
            next_monitoring: now,
            connection_id: None,
        }
    }

    /// A server created by request at `now` under a new random id.
    pub fn create(req: CreateServerRequest, now: u64) -> (r: Server)
        ensures
            r.id@.len() == 36,
            r.name == req.name,
            r.host == req.host,
            r.port == req.port,
            r.username == req.username,
            r.auth_method == req.auth_method,
            r.proxy_config == req.proxy_config,
            r.created_at == now,
            r.updated_at == now,
            r.last_seen is None,
            r.connection_id is None,
            r.status is Offline,
            r.next_monitoring == now,
            r.monitoring_interval == REQUESTED_INTERVAL_SECS,
    {
        Server::from_request(req, crate::pool::new_uuid(), now)
    }

    /// Applies an update at `now`; status and schedule stay as they were.
    pub fn apply_update(&mut self, req: UpdateServerRequest, now: u64)
        ensures
            *final(self) == (Server {
                name: req.name,
                host: req.host,
                port: req.port,
                username: req.username,
                auth_method: req.auth_method,
                proxy_config: req.proxy_config,
                updated_at: now,
                ..*old(self)
            }),
    {
        self.name = req.name;
        self.host = req.host;
        self.port = req.port;
        self.username = req.username;
        self.auth_method = req.auth_method;
        self.proxy_config = req.proxy_config;
        self.updated_at = now;
    }
}

/// A probe output that could not be read.
#[derive(Debug, Clone, Copy, PartialEq, Eq, Structural)]
pub struct ParseError;

} // verus!
