use agentless_monitor::executor::{
    after_attempt, classify_failure, connection_healthy, control_socket_path, decimal_string,
    is_auth_error, is_connection_error, socket_wait_step, user_at_host, AttemptResult, ExecAction,
    ExecError, FailureClass, SocketWait, SshConnection,
};
use agentless_monitor::models::{AuthMethod, Server, ServerStatus};

fn server(auth: AuthMethod) -> Server {
    Server {
        id: "web".to_string(),
        name: "web".to_string(),
        host: "10.0.0.5".to_string(),
        port: 2222,
        username: "ops".to_string(),
        auth_method: auth,
        proxy_config: None,
        created_at: 0,
        updated_at: 0,
        last_seen: None,
        status: ServerStatus::Offline,
        monitoring_interval: 30,
        next_monitoring: 0,
        connection_id: None,
    }
}

#[test]
fn connection_errors_are_recognized() {
    assert!(is_connection_error("Connection reset by peer"));
    assert!(is_connection_error("mux_client_request_session: read from master failed"));
    assert!(is_connection_error("kex_exchange_identification: Connection closed"));
    assert!(!is_connection_error("Permission denied (publickey)"));
    assert!(!is_connection_error(""));
}

#[test]
fn auth_errors_are_recognized() {
    assert!(is_auth_error("Permission denied (publickey)"));
    assert!(is_auth_error("Host key verification failed."));
    assert!(!is_auth_error("Broken pipe"));
}

#[test]
fn failures_fall_in_exactly_one_class() {
    assert_eq!(classify_failure("Permission denied, please try again"), FailureClass::Auth);
    assert_eq!(classify_failure("write failed: Broken pipe"), FailureClass::Connection);
    assert_eq!(classify_failure("ls: cannot access x: No such file"), FailureClass::RemoteCommand);
    assert_eq!(classify_failure("Permission denied; Connection refused"), FailureClass::Auth);
}

#[test]
fn connection_failure_is_retried_exactly_once() {
    let first = after_attempt(0, AttemptResult::Failure("Connection refused".to_string()));
    assert!(matches!(first, ExecAction::Reconnect));
    let second = after_attempt(1, AttemptResult::Failure("Connection refused".to_string()));
    assert!(matches!(second, ExecAction::Fail(ExecError::Connection(ref m)) if m == "Connection refused"));
}

#[test]
fn auth_failure_is_never_retried() {
    let r = after_attempt(0, AttemptResult::Failure("Permission denied".to_string()));
    assert!(matches!(r, ExecAction::Fail(ExecError::Auth(_))));
    let r = after_attempt(0, AttemptResult::Failure("exit status 2".to_string()));
    assert!(matches!(r, ExecAction::Fail(ExecError::RemoteCommand(_))));
}

#[test]
fn timeout_counts_as_connection_class() {
    assert!(matches!(after_attempt(0, AttemptResult::TimedOut), ExecAction::Reconnect));
    assert!(matches!(after_attempt(1, AttemptResult::TimedOut), ExecAction::Fail(ExecError::Timeout)));
}

#[test]
fn success_returns_output() {
    let r = after_attempt(1, AttemptResult::Success("out".to_string()));
    assert!(matches!(r, ExecAction::Return(ref o) if o == "out"));
}

#[test]
fn ssh_args_for_config_auth() {
    let c = SshConnection::new(&server(AuthMethod::SshConfig));
    assert_eq!(
        c.build_ssh_args(),
        vec!["-o", "StrictHostKeyChecking=no", "-o", "UserKnownHostsFile=/dev/null", "-o", "LogLevel=ERROR", "-p", "2222"]
    );
}

#[test]
fn ssh_args_for_password_auth() {
    let c = SshConnection::new(&server(AuthMethod::Password("pw".to_string())));
    let args = c.build_ssh_args();
    assert_eq!(&args[..3], &["sshpass".to_string(), "-p".to_string(), "pw".to_string()]);
    assert_eq!(args.len(), 11);
    assert_eq!(args[10], "2222");
}

#[test]
fn fallback_connection_uses_the_password() {
    let s = server(AuthMethod::SshConfig);
    assert!(SshConnection::new(&s).fallback_connection().is_none());
    let c = SshConnection::new_with_fallback(&s, Some("secret".to_string()));
    let f = c.fallback_connection().unwrap();
    assert!(matches!(f.auth_method, AuthMethod::Password(ref p) if p == "secret"));
    assert!(f.fallback_password.is_none());
    assert_eq!(f.host, "10.0.0.5");
}

#[test]
fn socket_paths_and_addresses() {
    assert_eq!(control_socket_path("/run/user/1/am", "abc"), "/run/user/1/am/ssh_abc");
    assert_eq!(user_at_host("ops", "10.0.0.5"), "ops@10.0.0.5");
    assert_eq!(decimal_string(0), "0");
    assert_eq!(decimal_string(65535), "65535");
}

#[test]
fn socket_wait_fails_fast_when_process_exits() {
    assert_eq!(socket_wait_step(false, false, 0), SocketWait::Exited);
    assert_eq!(socket_wait_step(true, true, 0), SocketWait::Ready);
    assert_eq!(socket_wait_step(true, false, 200), SocketWait::Wait);
    assert_eq!(socket_wait_step(true, false, 10_000), SocketWait::TimedOut);
}

#[test]
fn health_needs_all_three_tiers() {
    assert!(connection_healthy(true, true, true));
    assert!(!connection_healthy(true, true, false));
    assert!(!connection_healthy(false, true, true));
}

#[test]
fn client_command_runs_ssh_under_sshpass() {
    let c = SshConnection::new(&server(AuthMethod::Password("pw".to_string())));
    let cmd = c.client_command();
    assert_eq!(&cmd[..4], &["sshpass", "-p", "pw", "ssh"]);
    assert_eq!(cmd.len(), 12);
    let plain = SshConnection::new(&server(AuthMethod::SshConfig)).client_command();
    assert_eq!(plain[0], "ssh");
    assert_eq!(plain[8], "2222");
}
