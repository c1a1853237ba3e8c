//! Running one remote command: what the SSH client is invoked with, how a
//! failure is classified, and when the command is tried again.

use crate::models::{AuthMethod, ProxyConfig, Server};
use crate::parse::strings;
use crate::text::{chars_of, contains_chars, has_substring, string_of};
use vstd::prelude::*;

verus! {

/// Seconds that one remote command may take.
pub const COMMAND_TIMEOUT_SECS: u64 = 30;

/// Seconds that a health probe of a master connection may take.
pub const CONTROL_CHECK_TIMEOUT_SECS: u64 = 5;

/// Seconds to wait for a new master connection's socket.
pub const CONTROL_SOCKET_DEADLINE_SECS: u64 = 10;

/// Milliseconds between two looks for a new master connection's socket.
pub const CONTROL_SOCKET_POLL_MS: u64 = 200;

/// Whether an error text tells of a broken or lost transport: a socket,
/// reset, refused, unreachable or timed out connection, or a failed handshake.
pub open spec fn connection_text(m: Seq<char>) -> bool {
    has_substring(m, "ControlSocket"@) || has_substring(m, "Broken pipe"@) || has_substring(
        m,
        "Connection reset"@,
    ) || has_substring(m, "mux"@) || has_substring(m, "Connection refused"@) || has_substring(
        m,
        "No route to host"@,
    ) || has_substring(m, "Connection timed out"@) || has_substring(
        m,
        "ssh_exchange_identification"@,
    ) || has_substring(m, "kex_exchange_identification"@)
}

/// Whether an error text tells of rejected credentials.
pub open spec fn auth_text(m: Seq<char>) -> bool {
    has_substring(m, "Permission denied"@) || has_substring(m, "password"@) || has_substring(
        m,
        "authentication"@,
    ) || has_substring(m, "passphrase"@) || has_substring(m, "Host key verification failed"@)
}

fn contains_lit(h: &Vec<char>, n: &str) -> (r: bool)
    ensures
        r == has_substring(h@, n@),
{
    contains_chars(h, &chars_of(n))
}

/// Whether an error text tells of a broken or lost connection (see `connection_text`).
pub fn is_connection_error(msg: &str) -> (r: bool)
    ensures
        r == connection_text(msg@),
{
    let m = chars_of(msg);
    contains_lit(&m, "ControlSocket") || contains_lit(&m, "Broken pipe") || contains_lit(
        &m,
        "Connection reset",
    ) || contains_lit(&m, "mux") || contains_lit(&m, "Connection refused") || contains_lit(
        &m,
        "No route to host",
    ) || contains_lit(&m, "Connection timed out") || contains_lit(
        &m,
        "ssh_exchange_identification",
    ) || contains_lit(&m, "kex_exchange_identification")
}

/// Whether an error text tells of rejected credentials (see `auth_text`).
pub fn is_auth_error(msg: &str) -> (r: bool)
    ensures
        r == auth_text(msg@),
{
    let m = chars_of(msg);
    contains_lit(&m, "Permission denied") || contains_lit(&m, "password") || contains_lit(
        &m,
        "authentication",
    ) || contains_lit(&m, "passphrase") || contains_lit(&m, "Host key verification failed")
}

/// The three classes of command failure.
#[derive(Debug, Clone, Copy, PartialEq, Eq, Structural)]
pub enum FailureClass {
    /// The transport broke: evict the connection and try once more.
    Connection,
    /// The credentials were rejected: never tried again.
    Auth,
    /// The remote command failed: never tried again.
    RemoteCommand,
}

/// The class of a failure from the client's error text; rejected credentials
/// take precedence over a broken transport.
pub open spec fn class_of(m: Seq<char>) -> FailureClass {
    if auth_text(m) {
        FailureClass::Auth
    } else if connection_text(m) {
        FailureClass::Connection
    } else {
        FailureClass::RemoteCommand
    }
}

/// Classifies a failed command by its error text.
pub fn classify_failure(stderr: &str) -> (r: FailureClass)
    ensures
        r == class_of(stderr@),
{
    if is_auth_error(stderr) {
        FailureClass::Auth
    } else if is_connection_error(stderr) {
        FailureClass::Connection
    } else {
        FailureClass::RemoteCommand
    }
}

/// How one run of a remote command ended.
#[derive(Debug, Clone)]
pub enum AttemptResult {
    /// It exited successfully with this standard output.
    Success(String),
    /// It failed with this error text.
    Failure(String),
    /// It did not finish within `COMMAND_TIMEOUT_SECS`.
    TimedOut,
}

/// Why a remote command failed for good.
#[derive(Debug, Clone)]
pub enum ExecError {
    Connection(String),
    Auth(String),
    RemoteCommand(String),
    Timeout,
    PoolExhausted,
}

/// What to do after a run of a remote command.
#[derive(Debug, Clone)]
pub enum ExecAction {
    /// Hand this output to the caller.
    Return(String),
    /// Evict the connection and run the command again on a fresh one.
    Reconnect,
    /// Give up with this error.
    Fail(ExecError),
}

/// Whether a result is of the connection class, timeouts included.
pub open spec fn connection_class(r: AttemptResult) -> bool {
    match r {
        AttemptResult::Success(_) => false,
        AttemptResult::Failure(m) => class_of(m@) == FailureClass::Connection,
        AttemptResult::TimedOut => true,
    }
}

/// Whether the command is run again after `attempt` earlier retries ended this way.
pub open spec fn retries(attempt: nat, r: AttemptResult) -> bool {
    attempt == 0 && connection_class(r)
}

/// Decides what follows the run of a command that has been retried `attempt`
/// times: success returns the output; a connection-class failure is retried
/// once with a fresh connection; anything else fails at once.
pub fn after_attempt(attempt: u32, result: AttemptResult) -> (r: ExecAction)
    ensures
        (r is Reconnect) == retries(attempt as nat, result),
        result matches AttemptResult::Success(o) ==> r matches ExecAction::Return(x) && x@ == o@,
        result matches AttemptResult::Failure(m) ==> (!retries(attempt as nat, result) ==> match class_of(m@) {
            FailureClass::Auth => r matches ExecAction::Fail(ExecError::Auth(x)) && x@ == m@,
            FailureClass::Connection => r matches ExecAction::Fail(ExecError::Connection(x)) && x@ == m@,
            FailureClass::RemoteCommand => r matches ExecAction::Fail(ExecError::RemoteCommand(x)) && x@ == m@,
        }),
        result is TimedOut && attempt > 0 ==> r matches ExecAction::Fail(ExecError::Timeout),
{
    match result {
        AttemptResult::Success(o) => ExecAction::Return(o),
        AttemptResult::Failure(m) => {
            let class = classify_failure(m.as_str());
            match class {
                FailureClass::Auth => ExecAction::Fail(ExecError::Auth(m)),
                FailureClass::RemoteCommand => ExecAction::Fail(ExecError::RemoteCommand(m)),
                FailureClass::Connection => {
                    if attempt == 0 {
                        ExecAction::Reconnect
                    } else {
                        ExecAction::Fail(ExecError::Connection(m))
                    }
                },
            }
        },
        AttemptResult::TimedOut => {
            if attempt == 0 {
                ExecAction::Reconnect
            } else {
                ExecAction::Fail(ExecError::Timeout)
            }
        },
    }
}

/// A command is retried at most once, only for a connection-class failure,
/// and never for rejected credentials.
pub proof fn lemma_retry_policy(attempt: nat, r: AttemptResult)
    ensures
        retries(attempt, r) ==> attempt == 0,
        r matches AttemptResult::Failure(m) && class_of(m@) == FailureClass::Auth ==> !retries(attempt, r),
        r matches AttemptResult::Failure(m) && class_of(m@) == FailureClass::RemoteCommand ==> !retries(attempt, r),
        connection_class(r) ==> (retries(attempt, r) <==> attempt == 0),
{
}


/// How many runs of a command the executor makes from run `k` on, when its
/// successive runs would end as `outcomes`: each run is followed by another
/// exactly when `after_attempt` asks to reconnect.
pub open spec fn runs_made(outcomes: Seq<AttemptResult>, k: nat) -> nat
    decreases outcomes.len() - k,
{
    if k >= outcomes.len() {
        0
    } else if retries(k, outcomes[k as int]) {
        1 + runs_made(outcomes, k + 1)
    } else {
        1
    }
}

/// Whatever the runs of a command end with, the executor makes at most two:
/// a second one exactly when the first failed with a connection-class error,
/// and never after rejected credentials.
pub proof fn lemma_at_most_two_runs(outcomes: Seq<AttemptResult>)
    requires
        outcomes.len() >= 2,
    ensures
        runs_made(outcomes, 0) <= 2,
        runs_made(outcomes, 0) == (if connection_class(outcomes[0]) {
            2nat
        } else {
            1nat
        }),
        outcomes[0] matches AttemptResult::Failure(m) && class_of(m@) == FailureClass::Auth
            ==> runs_made(outcomes, 0) == 1,
{
    assert(!retries(1, outcomes[1]));
    assert(runs_made(outcomes, 1) == 1);
}

/// The decimal digits of `n`.
pub open spec fn decimal_digits(n: nat) -> Seq<char>
    decreases n,
{
    if n < 10 {
        seq![((n + 48) as u8) as char]
    } else {
        decimal_digits(n / 10).push((((n % 10) + 48) as u8) as char)
    }
}

fn push_decimal(v: &mut Vec<char>, n: u64)
    ensures
        final(v)@ == old(v)@ + decimal_digits(n as nat),
    decreases n,
{
    if n >= 10 {
        push_decimal(v, n / 10);
    }
    let d: u8 = (n % 10) as u8;
    v.push((d + 48) as char);
    proof {
        if n >= 10 {
            assert(final(v)@ =~= old(v)@ + decimal_digits(n as nat));
        } else {
            assert(final(v)@ =~= old(v)@ + decimal_digits(n as nat));
        }
    }
}

/// `n` written in decimal.
pub fn decimal_string(n: u64) -> (r: String)
    ensures
        r@ == decimal_digits(n as nat),
{
    let mut v: Vec<char> = Vec::new();
    push_decimal(&mut v, n);
    assert(v@ =~= decimal_digits(n as nat));
    string_of(&v)
}

/// Concatenates texts.
fn join3(a: &str, b: &str, c: &str) -> (r: String)
    ensures
        r@ == a@ + b@ + c@,
{
    let mut v = chars_of(a);
    let mut w = chars_of(b);
    let mut x = chars_of(c);
    v.append(&mut w);
    v.append(&mut x);
    string_of(&v)
}

/// `user@host`.
pub fn user_at_host(username: &str, host: &str) -> (r: String)
    ensures
        r@ == username@ + "@"@ + host@,
{
    join3(username, "@", host)
}

/// The path of a connection's master socket inside `dir`: `dir/ssh_<id>`.
pub fn control_socket_path(dir: &str, connection_id: &str) -> (r: String)
    ensures
        r@ == dir@ + "/ssh_"@ + connection_id@,
{
    join3(dir, "/ssh_", connection_id)
}

/// A copy of an authentication method.
pub fn copy_auth(a: &AuthMethod) -> (r: AuthMethod)
    ensures
        r == *a,
{
    match a {
        AuthMethod::SshConfig => AuthMethod::SshConfig,
        AuthMethod::Password(p) => AuthMethod::Password(p.clone()),
    }
}

/// The client options every connection uses, the port given.
pub open spec fn base_args(port: u16) -> Seq<Seq<char>> {
    seq![
        "-o"@,
        "StrictHostKeyChecking=no"@,
        "-o"@,
        "UserKnownHostsFile=/dev/null"@,
        "-o"@,
        "LogLevel=ERROR"@,
        "-p"@,
        decimal_digits(port as nat),
    ]
}

/// The arguments for a connection: the base options, led by `sshpass -p
/// <password>` where a password is to be given.
pub open spec fn ssh_args_spec(auth: AuthMethod, port: u16) -> Seq<Seq<char>> {
    match auth {
        AuthMethod::Password(p) => seq!["sshpass"@, "-p"@, p@] + base_args(port),
        AuthMethod::SshConfig => base_args(port),
    }
}

/// The client command line: `ssh` with the base options, led by `sshpass -p
/// <password>` where a password is to be given.
pub open spec fn client_command_spec(auth: AuthMethod, port: u16) -> Seq<Seq<char>> {
    match auth {
        AuthMethod::Password(p) => seq!["sshpass"@, "-p"@, p@, "ssh"@] + base_args(port),
        AuthMethod::SshConfig => seq!["ssh"@] + base_args(port),
    }
}

/// How a connection health check ended, tier by tier.
pub open spec fn healthy_spec(process_running: bool, socket_exists: bool, probe_ok: bool) -> bool {
    process_running && socket_exists && probe_ok
}

/// A master connection is healthy when its process still runs, its socket
/// exists and a liveness probe through the socket succeeded in time.
pub fn connection_healthy(process_running: bool, socket_exists: bool, probe_ok: bool) -> (r: bool)
    ensures
        r == healthy_spec(process_running, socket_exists, probe_ok),
{
    process_running && socket_exists && probe_ok
}

/// The state of a new master connection while its socket is awaited.
#[derive(Debug, Clone, Copy, PartialEq, Eq, Structural)]
pub enum SocketWait {
    /// The socket is there: the connection is usable.
    Ready,
    /// The process ended first, as on a failed handshake.
    Exited,
    /// The deadline passed.
    TimedOut,
    /// Look again after `CONTROL_SOCKET_POLL_MS`.
    Wait,
}

/// One look at a starting master connection after `elapsed_ms`: a process that
/// ended fails at once, before the deadline is waited out.
pub fn socket_wait_step(process_running: bool, socket_exists: bool, elapsed_ms: u64) -> (r: SocketWait)
    ensures
        !process_running ==> r == SocketWait::Exited,
        process_running && socket_exists ==> r == SocketWait::Ready,
        process_running && !socket_exists && elapsed_ms >= CONTROL_SOCKET_DEADLINE_SECS * 1000
            ==> r == SocketWait::TimedOut,
        process_running && !socket_exists && elapsed_ms < CONTROL_SOCKET_DEADLINE_SECS * 1000
            ==> r == SocketWait::Wait,
{
    if !process_running {
        SocketWait::Exited
    } else if socket_exists {
        SocketWait::Ready
    } else if elapsed_ms >= CONTROL_SOCKET_DEADLINE_SECS * 1000 {
        SocketWait::TimedOut
    } else {
        SocketWait::Wait
    }
}

/// What the SSH client needs to reach one server.
pub struct SshConnection {
    pub host: String,
    pub port: u16,
    pub username: String,
    pub auth_method: AuthMethod,
    pub fallback_password: Option<String>,
}

impl SshConnection {
    /// The connection details of a server, without a fallback password.
    pub fn new(server: &Server) -> (r: Self)
        ensures
            r.host@ == server.host@,
            r.port == server.port,
            r.username@ == server.username@,
            r.auth_method == server.auth_method,
            r.fallback_password is None,
    {
        SshConnection {
            host: server.host.clone(),
            port: server.port,
            username: server.username.clone(),
            auth_method: copy_auth(&server.auth_method),
            fallback_password: None,
        }
    }

    /// The connection details of a server, with a password to fall back on.
    pub fn new_with_fallback(server: &Server, fallback_password: Option<String>) -> (r: Self)
        ensures
            r.host@ == server.host@,
            r.port == server.port,
            r.username@ == server.username@,
            r.auth_method == server.auth_method,
            r.fallback_password == fallback_password,
    {
        SshConnection {
            host: server.host.clone(),
            port: server.port,
            username: server.username.clone(),
            auth_method: copy_auth(&server.auth_method),
            fallback_password,
        }
    }

    /// The connection details of a server reached through a proxy; the proxy
    /// is not applied, the server is addressed directly.
    pub fn new_with_proxy(server: &Server, _proxy_config: &ProxyConfig) -> (r: Self)
        ensures
            r.host@ == server.host@,
            r.port == server.port,
            r.username@ == server.username@,
            r.auth_method == server.auth_method,
            r.fallback_password is None,
    {
        Self::new(server)
    }

    /// The connection to try when this one failed: the same server with the
    /// fallback password, if there is one.
    pub fn fallback_connection(&self) -> (r: Option<SshConnection>)
        ensures
            r is Some <==> self.fallback_password is Some,
            r matches Some(c) ==> c.host@ == self.host@ && c.port == self.port && c.username@
                == self.username@ && c.auth_method == AuthMethod::Password(
                self.fallback_password->0,
            ) && c.fallback_password is None,
    {
        match &self.fallback_password {
            Some(p) => Some(
                SshConnection {
                    host: self.host.clone(),
                    port: self.port,
                    username: self.username.clone(),
                    auth_method: AuthMethod::Password(p.clone()),
                    fallback_password: None,
                },
            ),
            None => None,
        }
    }

    /// The whole client command line: `ssh` and the base options, run under
    /// `sshpass -p <password>` where a password is to be given. Its first
    /// item is the program to start.
    pub fn client_command(&self) -> (r: Vec<String>)
        ensures
            strings(r@) == client_command_spec(self.auth_method, self.port),
    {
        let mut cmd: Vec<String> = Vec::new();
        match &self.auth_method {
            AuthMethod::Password(p) => {
                cmd.push("sshpass".to_string());
                cmd.push("-p".to_string());
                cmd.push(p.clone());
            },
            AuthMethod::SshConfig => {},
        }
        cmd.push("ssh".to_string());
        let ghost lead = strings(cmd@);
        let mut rest = SshConnection {
            host: String::new(),
            port: self.port,
            username: String::new(),
            auth_method: AuthMethod::SshConfig,
            fallback_password: None,
        }.build_ssh_args();
        cmd.append(&mut rest);
        assert(strings(cmd@) =~= lead + base_args(self.port));
        match &self.auth_method {
            AuthMethod::Password(p) => {
                assert(lead =~= seq!["sshpass"@, "-p"@, p@, "ssh"@]);
            },
            AuthMethod::SshConfig => {
                assert(lead =~= seq!["ssh"@]);
            },
        }
        cmd
    }

    /// The client arguments for this connection (see `ssh_args_spec`).
    pub fn build_ssh_args(&self) -> (r: Vec<String>)
        ensures
            strings(r@) == ssh_args_spec(self.auth_method, self.port),
    {
        let mut args: Vec<String> = Vec::new();
        match &self.auth_method {
            AuthMethod::Password(p) => {
                args.push("sshpass".to_string());
                args.push("-p".to_string());
                args.push(p.clone());
            },
            AuthMethod::SshConfig => {},
        }
        let ghost lead = strings(args@);
        args.push("-o".to_string());
        args.push("StrictHostKeyChecking=no".to_string());
        args.push("-o".to_string());
        args.push("UserKnownHostsFile=/dev/null".to_string());
        args.push("-o".to_string());
        args.push("LogLevel=ERROR".to_string());
        args.push("-p".to_string());
        args.push(decimal_string(self.port as u64));
        assert(strings(args@) =~= lead + base_args(self.port));
        match &self.auth_method {
            AuthMethod::Password(p) => {
                assert(lead =~= seq!["sshpass"@, "-p"@, p@]);
            },
            AuthMethod::SshConfig => {
                assert(lead =~= Seq::<Seq<char>>::empty());
            },
        }
        args
    }
}

} // verus!
