//! Application settings.

use vstd::prelude::*;

verus! {

/// Settings of the monitor as a whole.
#[derive(Debug, Clone)]
pub struct AppConfig {
    pub server_port: u16,
    pub log_level: String,
    /// Seconds between two collections of a remote server.
    pub monitoring_interval: u64,
    pub ping_timeout: u64,
    pub ssh_timeout: u64,
    pub fallback_password: Option<String>,
}

impl Default for AppConfig {
    fn default() -> (r: Self)
        ensures
            r.server_port == 8080,
            r.log_level@ == "info"@,
            r.monitoring_interval == 30,
            r.ping_timeout == 5,
            r.ssh_timeout == 10,
            r.fallback_password is None,
    {
        AppConfig {
            server_port: 8080,
            log_level: "info".to_string(),
            monitoring_interval: 30,
            ping_timeout: 5,
            ssh_timeout: 10,
            fallback_password: None,
        }
    }
}

} // verus!
