//! Scheduling rules: which servers are due, how a collection's outcome
//! updates a server, and how servers found in an SSH client configuration
//! are first scheduled.

use crate::models::{AuthMethod, Server, ServerStatus};
use crate::parse::text_lines;
use crate::text::{
    chars_of, parse_uint, seqs, slice_of, string_of, trim, trim_chars, uint_value, words,
};
use vstd::prelude::*;

verus! {

/// Seconds between two collections of the local machine.
pub const LOCAL_INTERVAL_SECS: u64 = 3;

/// Seconds between two collections of a remote server.
pub const REMOTE_INTERVAL_SECS: u64 = 30;

/// Seconds between the first collections of two servers loaded together.
pub const STAGGER_SECS: u64 = 5;

/// The id of the local machine.
pub const LOCAL_SERVER_ID: &'static str = "local";

/// `now + interval`, or the largest time where that overflows.
pub open spec fn next_due(now: u64, interval: u64) -> u64 {
    if now as int + interval as int <= u64::MAX {
        (now + interval) as u64
    } else {
        u64::MAX
    }
}

pub fn next_due_exec(now: u64, interval: u64) -> (r: u64)
    ensures
        r == next_due(now, interval),
{
    now.saturating_add(interval)
}

/// Whether a server's collection is due at `now`.
pub fn is_due(server: &Server, now: u64) -> (r: bool)
    ensures
        r == (server.next_monitoring <= now),
{
    server.next_monitoring <= now
}

/// The positions of the servers due at `now`, in order.
pub open spec fn due_positions(s: Seq<Server>, now: u64) -> Seq<int>
    decreases s.len(),
{
    if s.len() == 0 {
        Seq::empty()
    } else if s.last().next_monitoring <= now {
        due_positions(s.drop_last(), now).push(s.len() - 1)
    } else {
        due_positions(s.drop_last(), now)
    }
}

/// The positions of the servers due at `now`.
pub fn due_servers(servers: &Vec<Server>, now: u64) -> (r: Vec<usize>)
    ensures
        r@.map_values(|i: usize| i as int) == due_positions(servers@, now),
{
    let mut out: Vec<usize> = Vec::new();
    let mut i: usize = 0;
    while i < servers.len()
        invariant
            i <= servers.len(),
            out@.map_values(|k: usize| k as int) == due_positions(servers@.subrange(0, i as int), now),
        decreases servers.len() - i,
    {
        assert(servers@.subrange(0, i + 1).drop_last() =~= servers@.subrange(0, i as int));
        let ghost before = out@;
        if servers[i].next_monitoring <= now {
            out.push(i);
            assert(out@.map_values(|k: usize| k as int) =~= before.map_values(|k: usize| k as int).push(i as int));
        }
        i = i + 1;
    }
    assert(servers@.subrange(0, i as int) =~= servers@);
    out
}

/// Marks a server as being collected.
pub fn mark_connecting(server: &mut Server)
    ensures
        *final(server) == (Server { status: ServerStatus::Connecting, ..*old(server) }),
{
    server.status = ServerStatus::Connecting;
}

/// Records a successful collection at `now`: the server is online, seen now,
/// and due again one interval later.
pub fn record_success(server: &mut Server, now: u64)
    ensures
        *final(server) == (Server {
            status: ServerStatus::Online,
            last_seen: Some(now),
            next_monitoring: next_due(now, old(server).monitoring_interval),
            ..*old(server)
        }),
{
    server.status = ServerStatus::Online;
    server.last_seen = Some(now);
    server.next_monitoring = next_due_exec(now, server.monitoring_interval);
}

/// Records a failed collection at `now`: the server is in error and still due
/// again one interval later, never sooner.
pub fn record_failure(server: &mut Server, now: u64, reason: String)
    ensures
        *final(server) == (Server {
            status: ServerStatus::Error(reason),
            next_monitoring: next_due(now, old(server).monitoring_interval),
            ..*old(server)
        }),
{
    server.status = ServerStatus::Error(reason);
    server.next_monitoring = next_due_exec(now, server.monitoring_interval);
}

/// Records a successful connection test at `now`; the schedule is left alone.
pub fn record_connected(server: &mut Server, now: u64)
    ensures
        *final(server) == (Server { status: ServerStatus::Online, last_seen: Some(now), ..*old(server) }),
{
    server.status = ServerStatus::Online;
    server.last_seen = Some(now);
}

/// Records a failed connection test; the schedule is left alone.
pub fn record_connect_error(server: &mut Server, reason: String)
    ensures
        *final(server) == (Server { status: ServerStatus::Error(reason), ..*old(server) }),
{
    server.status = ServerStatus::Error(reason);
}

/// The local machine as a server, due at once and collected every
/// `LOCAL_INTERVAL_SECS` seconds.
pub fn local_server(username: String, now: u64) -> (r: Server)
    ensures
        r.id@ == LOCAL_SERVER_ID@,
        r.name@ == "Local Machine"@,
        r.host@ == "localhost"@,
        r.auth_method == AuthMethod::SshConfig,
        r.updated_at == now,
        r.username == username,
        r.port == 22,
        r.status is Online,
        r.last_seen == Some(now),
        r.monitoring_interval == LOCAL_INTERVAL_SECS,
        r.next_monitoring == now,
        r.created_at == now,
        r.proxy_config is None,
        r.connection_id is None,
{
    Server {
        id: LOCAL_SERVER_ID.to_string(),
        name: "Local Machine".to_string(),
        host: "localhost".to_string(),
        port: 22,
        username,
        auth_method: AuthMethod::SshConfig,
        proxy_config: None,
        created_at: now,
        updated_at: now,
        last_seen: Some(now),
        status: ServerStatus::Online,
        monitoring_interval: LOCAL_INTERVAL_SECS,
        next_monitoring: now,
        connection_id: None,
    }
}

/// How long ago the servers were seen, over those seen at all.
#[derive(Debug, Clone, Copy, PartialEq, Eq, Structural)]
pub struct ConnectionStats {
    pub active_connections: u64,
    /// The largest age in seconds, 0 when there is none.
    pub oldest_connection_age: u64,
    /// The smallest non-zero age in seconds, 0 when there is none.
    pub youngest_connection_age: u64,
}

/// Seconds since a server was seen (0 for a time ahead of `now`).
pub open spec fn seen_age(last_seen: u64, now: u64) -> u64 {
    if now >= last_seen {
        (now - last_seen) as u64
    } else {
        0
    }
}

/// The statistics over the first servers of `s`.
pub open spec fn stats_of(s: Seq<Server>, now: u64) -> ConnectionStats
    decreases s.len(),
{
    if s.len() == 0 {
        ConnectionStats { active_connections: 0, oldest_connection_age: 0, youngest_connection_age: 0 }
    } else {
        let prev = stats_of(s.drop_last(), now);
        match s.last().last_seen {
            Some(t) => {
                let age = seen_age(t, now);
                ConnectionStats {
                    active_connections: (prev.active_connections + 1) as u64,
                    oldest_connection_age: if prev.oldest_connection_age == 0 || age
                        > prev.oldest_connection_age {
                        age
                    } else {
                        prev.oldest_connection_age
                    },
                    youngest_connection_age: if prev.youngest_connection_age == 0 || age
                        < prev.youngest_connection_age {
                        age
                    } else {
                        prev.youngest_connection_age
                    },
                }
            },
            None => prev,
        }
    }
}

/// Counts the servers seen at all, and the oldest and youngest time since they were seen.
pub fn connection_stats(servers: &Vec<Server>, now: u64) -> (r: ConnectionStats)
    ensures
        r == stats_of(servers@, now),
{
    let mut st = ConnectionStats { active_connections: 0, oldest_connection_age: 0, youngest_connection_age: 0 };
    let mut i: usize = 0;
    while i < servers.len()
        invariant
            i <= servers.len(),
            st == stats_of(servers@.subrange(0, i as int), now),
            st.active_connections <= i,
        decreases servers.len() - i,
    {
        assert(servers@.subrange(0, i + 1).drop_last() =~= servers@.subrange(0, i as int));
        match servers[i].last_seen {
            Some(t) => {
                let age = if now >= t {
                    now - t
                } else {
                    0
                };
                let oldest = if st.oldest_connection_age == 0 || age > st.oldest_connection_age {
                    age
                } else {
                    st.oldest_connection_age
                };
                let youngest = if st.youngest_connection_age == 0 || age < st.youngest_connection_age {
                    age
                } else {
                    st.youngest_connection_age
                };
                st = ConnectionStats {
                    active_connections: st.active_connections + 1,
                    oldest_connection_age: oldest,
                    youngest_connection_age: youngest,
                };
            },
            None => {},
        }
        i = i + 1;
    }
    assert(servers@.subrange(0, i as int) =~= servers@);
    st
}

/// How many servers are in each state.
#[derive(Debug, Clone, Copy, PartialEq, Eq, Structural)]
pub struct StatusCounts {
    pub online: u64,
    pub offline: u64,
    pub connecting: u64,
    pub error: u64,
}

pub open spec fn counts_of(s: Seq<Server>) -> StatusCounts
    decreases s.len(),
{
    if s.len() == 0 {
        StatusCounts { online: 0, offline: 0, connecting: 0, error: 0 }
    } else {
        let p = counts_of(s.drop_last());
        match s.last().status {
            ServerStatus::Online => StatusCounts { online: (p.online + 1) as u64, ..p },
            ServerStatus::Offline => StatusCounts { offline: (p.offline + 1) as u64, ..p },
            ServerStatus::Connecting => StatusCounts { connecting: (p.connecting + 1) as u64, ..p },
            ServerStatus::Error(_) => StatusCounts { error: (p.error + 1) as u64, ..p },
        }
    }
}

/// Counts the servers by state.
pub fn status_counts(servers: &Vec<Server>) -> (r: StatusCounts)
    ensures
        r == counts_of(servers@),
{
    let mut c = StatusCounts { online: 0, offline: 0, connecting: 0, error: 0 };
    let mut i: usize = 0;
    while i < servers.len()
        invariant
            i <= servers.len(),
            c == counts_of(servers@.subrange(0, i as int)),
            c.online + c.offline + c.connecting + c.error == i,
        decreases servers.len() - i,
    {
        assert(servers@.subrange(0, i + 1).drop_last() =~= servers@.subrange(0, i as int));
        match &servers[i].status {
            ServerStatus::Online => {
                c.online = c.online + 1;
            },
            ServerStatus::Offline => {
                c.offline = c.offline + 1;
            },
            ServerStatus::Connecting => {
                c.connecting = c.connecting + 1;
            },
            ServerStatus::Error(_) => {
                c.error = c.error + 1;
            },
        }
        i = i + 1;
    }
    assert(servers@.subrange(0, i as int) =~= servers@);
    c
}

/// A host entry of an SSH client configuration.
#[derive(Debug, Clone)]
pub struct SshHost {
    pub name: String,
    pub host: String,
    pub port: u16,
    pub username: String,
}

/// Whether a host entry can be monitored: it has a host name and a user.
pub open spec fn usable_host(h: SshHost) -> bool {
    h.host@.len() > 0 && h.username@.len() > 0
}

/// The positions of the usable host entries.
pub open spec fn usable_positions(s: Seq<SshHost>) -> Seq<int>
    decreases s.len(),
{
    if s.len() == 0 {
        Seq::empty()
    } else if usable_host(s.last()) {
        usable_positions(s.drop_last()).push(s.len() - 1)
    } else {
        usable_positions(s.drop_last())
    }
}

/// When the entry at position `i` of a batch loaded at `now` is first due:
/// `STAGGER_SECS` seconds after the one before it.
pub open spec fn staggered_due(now: u64, i: int) -> u64 {
    if now + STAGGER_SECS * i <= u64::MAX {
        (now + STAGGER_SECS * i) as u64
    } else {
        u64::MAX
    }
}

/// The server that a host entry becomes.
pub open spec fn server_from_host(s: Server, h: SshHost, now: u64, i: int) -> bool {
    &&& s.id == h.name
    &&& s.name == h.name
    &&& s.host == h.host
    &&& s.port == h.port
    &&& s.username == h.username
    &&& s.auth_method == AuthMethod::SshConfig
    &&& s.proxy_config is None
    &&& s.created_at == now
    &&& s.updated_at == now
    &&& s.last_seen is None
    &&& s.status is Offline
    &&& s.monitoring_interval == REMOTE_INTERVAL_SECS
    &&& s.next_monitoring == staggered_due(now, i)
    &&& s.connection_id is None
}

fn stagger(now: u64, i: usize) -> (r: u64)
    ensures
        r == staggered_due(now, i as int),
{
    let off: u128 = (i as u128) * 5;
    let t: u128 = now as u128 + off;
    if t <= u64::MAX as u128 {
        t as u64
    } else {
        u64::MAX
    }
}

/// The servers for a batch of host entries loaded at `now`: entries without a
/// host name or user are skipped, and the entry at position `i` is first due
/// `i * STAGGER_SECS` seconds after `now`.
pub fn servers_from_hosts(hosts: &Vec<SshHost>, now: u64) -> (r: Vec<Server>)
    ensures
        r@.len() == usable_positions(hosts@).len(),
        forall|k: int|
            0 <= k < r@.len() ==> server_from_host(
                #[trigger] r@[k],
                hosts@[usable_positions(hosts@)[k]],
                now,
                usable_positions(hosts@)[k],
            ),
{
    let mut out: Vec<Server> = Vec::new();
    let mut i: usize = 0;
    while i < hosts.len()
        invariant
            i <= hosts.len(),
            out@.len() == usable_positions(hosts@.subrange(0, i as int)).len(),
            forall|k: int|
                0 <= k < out@.len() ==> 0 <= #[trigger] usable_positions(hosts@.subrange(0, i as int))[k] < i,
            forall|k: int|
                0 <= k < out@.len() ==> server_from_host(
                    #[trigger] out@[k],
                    hosts@[usable_positions(hosts@.subrange(0, i as int))[k]],
                    now,
                    usable_positions(hosts@.subrange(0, i as int))[k],
                ),
        decreases hosts.len() - i,
    {
        let ghost pre = hosts@.subrange(0, i + 1);
        assert(pre.drop_last() =~= hosts@.subrange(0, i as int));
        let h = &hosts[i];
        if !h.host.as_str().is_empty() && !h.username.as_str().is_empty() {
            assert(usable_host(pre.last()));
            out.push(
                Server {
                    id: h.name.clone(),
                    name: h.name.clone(),
                    host: h.host.clone(),
                    port: h.port,
                    username: h.username.clone(),
                    auth_method: AuthMethod::SshConfig,
                    proxy_config: None,
                    created_at: now,
                    updated_at: now,
                    last_seen: None,
                    status: ServerStatus::Offline,
                    monitoring_interval: REMOTE_INTERVAL_SECS,
                    next_monitoring: stagger(now, i),
                    connection_id: None,
                },
            );
        } else {
            assert(!usable_host(pre.last()));
        }
        i = i + 1;
    }
    assert(hosts@.subrange(0, i as int) =~= hosts@);
    out
}


/// A host entry as the configuration reader builds it: name, host name, port, user.
pub type HostEntry = (Seq<char>, Seq<char>, u16, Seq<char>);

type Draft = (Vec<char>, Vec<char>, u16, Vec<char>);

pub open spec fn draft_view(d: Draft) -> HostEntry {
    (d.0@, d.1@, d.2, d.3@)
}

/// Whether `l` begins with `p`.
pub open spec fn has_prefix(l: Seq<char>, p: Seq<char>) -> bool {
    p.len() <= l.len() && l.subrange(0, p.len() as int) == p
}

/// `l` without its first `n` characters.
pub open spec fn after(l: Seq<char>, n: nat) -> Seq<char> {
    l.subrange(n as int, l.len() as int)
}

/// An entry completed with the client's defaults: the host name defaults to
/// the entry's name, the user to `user`.
pub open spec fn finalize(h: HostEntry, user: Seq<char>) -> HostEntry {
    (h.0, if h.1.len() == 0 {
        h.0
    } else {
        h.1
    }, h.2, if h.3.len() == 0 {
        user
    } else {
        h.3
    })
}

/// Reads one configuration line: blank lines and comments change nothing; a
/// `Host` line closes the open entry and opens one (port 22, user `user`);
/// `HostName`, `Port` and `User` lines set a field of the open entry, a port
/// only where it reads.
pub open spec fn config_step(
    st: (Seq<HostEntry>, Option<HostEntry>),
    raw: Seq<char>,
    user: Seq<char>,
) -> (Seq<HostEntry>, Option<HostEntry>) {
    let l = trim(raw);
    if l.len() == 0 || l[0] == '#' {
        st
    } else if has_prefix(l, "Host "@) {
        let hosts = match st.1 {
            Some(h) => st.0.push(finalize(h, user)),
            None => st.0,
        };
        (hosts, Some((trim(after(l, 5)), Seq::empty(), 22u16, user)))
    } else {
        match st.1 {
            Some(h) => if has_prefix(l, "HostName "@) {
                (st.0, Some((h.0, trim(after(l, 9)), h.2, h.3)))
            } else if has_prefix(l, "Port "@) {
                match uint_value(trim(after(l, 5)), u16::MAX as nat) {
                    Some(p) => (st.0, Some((h.0, h.1, p as u16, h.3))),
                    None => st,
                }
            } else if has_prefix(l, "User "@) {
                (st.0, Some((h.0, h.1, h.2, trim(after(l, 5)))))
            } else {
                st
            },
            None => st,
        }
    }
}

pub open spec fn config_run(lines: Seq<Seq<char>>, user: Seq<char>) -> (Seq<HostEntry>, Option<HostEntry>)
    decreases lines.len(),
{
    if lines.len() == 0 {
        (Seq::empty(), None)
    } else {
        config_step(config_run(lines.drop_last(), user), lines.last(), user)
    }
}

/// The host entries of an SSH client configuration text, in order.
pub open spec fn ssh_config_hosts(text: Seq<char>, user: Seq<char>) -> Seq<HostEntry> {
    let st = config_run(text_lines(text), user);
    match st.1 {
        Some(h) => st.0.push(finalize(h, user)),
        None => st.0,
    }
}

fn starts_with_lit(l: &Vec<char>, p: &str) -> (r: bool)
    ensures
        r == has_prefix(l@, p@),
{
    let pc = chars_of(p);
    if pc.len() > l.len() {
        return false;
    }
    let head = slice_of(l, 0, pc.len());
    crate::text::same_chars(&head, &pc)
}

fn rest_after(l: &Vec<char>, n: usize) -> (r: Vec<char>)
    requires
        n <= l.len(),
    ensures
        r@ == trim(after(l@, n as nat)),
{
    trim_chars(&slice_of(l, n, l.len()))
}

fn finalize_draft(h: Draft, user: &Vec<char>) -> (r: SshHost)
    ensures
        (r.name@, r.host@, r.port, r.username@) == finalize(draft_view(h), user@),
{
    let host = if h.1.len() == 0 {
        string_of(&h.0)
    } else {
        string_of(&h.1)
    };
    let username = if h.3.len() == 0 {
        string_of(user)
    } else {
        string_of(&h.3)
    };
    SshHost { name: string_of(&h.0), host, port: h.2, username }
}

pub open spec fn draft_opt_view(c: Option<Draft>) -> Option<HostEntry> {
    match c {
        Some(d) => Some(draft_view(d)),
        None => None,
    }
}

pub open spec fn host_view(h: SshHost) -> HostEntry {
    (h.name@, h.host@, h.port, h.username@)
}

/// Reads the host entries of an SSH client configuration; `default_user` is
/// the user that entries without a `User` line get.
pub fn parse_ssh_config(content: &str, default_user: &str) -> (r: Vec<SshHost>)
    ensures
        r@.map_values(|h: SshHost| host_view(h)) == ssh_config_hosts(content@, default_user@),
{
    let user = chars_of(default_user);
    let lines = crate::parse::lines_of(content);
    let ghost ls = seqs(lines@);
    let mut hosts: Vec<SshHost> = Vec::new();
    let mut cur: Option<Draft> = None;
    let mut i: usize = 0;
    while i < lines.len()
        invariant
            i <= lines.len(),
            ls == seqs(lines@),
            ls == text_lines(content@),
            user@ == default_user@,
            (hosts@.map_values(|h: SshHost| host_view(h)), draft_opt_view(cur)) == config_run(
                ls.subrange(0, i as int),
                user@,
            ),
        decreases lines.len() - i,
    {
        assert(ls.subrange(0, i + 1).drop_last() =~= ls.subrange(0, i as int));
        assert(ls.subrange(0, i + 1).last() == lines[i as int]@);
        proof {
            reveal_strlit("Host ");
            reveal_strlit("HostName ");
            reveal_strlit("Port ");
            reveal_strlit("User ");
        }
        let l = trim_chars(&lines[i]);
        if l.len() == 0 || l[0] == '#' {
        } else if starts_with_lit(&l, "Host ") {
            let ghost hv = hosts@;
            match cur {
                Some(h) => {
                    let done = finalize_draft(h, &user);
                    hosts.push(done);
                    assert(hosts@.map_values(|h: SshHost| host_view(h)) =~= hv.map_values(
                        |h: SshHost| host_view(h),
                    ).push(host_view(done)));
                },
                None => {},
            }
            cur = Some((rest_after(&l, 5), Vec::new(), 22u16, slice_of(&user, 0, user.len())));
        } else {
            match cur {
                Some(h) => {
                    if starts_with_lit(&l, "HostName ") {
                        cur = Some((h.0, rest_after(&l, 9), h.2, h.3));
                    } else if starts_with_lit(&l, "Port ") {
                        match parse_uint(&rest_after(&l, 5), 65535) {
                            Some(p) => {
                                cur = Some((h.0, h.1, p as u16, h.3));
                            },
                            None => {
                                cur = Some(h);
                            },
                        }
                    } else if starts_with_lit(&l, "User ") {
                        cur = Some((h.0, h.1, h.2, rest_after(&l, 5)));
                    } else {
                        cur = Some(h);
                    }
                },
                None => {},
            }
        }
        i = i + 1;
    }
    assert(ls.subrange(0, i as int) =~= ls);
    let ghost hv = hosts@;
    match cur {
        Some(h) => {
            let done = finalize_draft(h, &user);
            hosts.push(done);
            assert(hosts@.map_values(|h: SshHost| host_view(h)) =~= hv.map_values(
                |h: SshHost| host_view(h),
            ).push(host_view(done)));
        },
        None => {},
    }
    hosts
}


/// Whether `w` ends with `p`.
pub open spec fn has_suffix(w: Seq<char>, p: Seq<char>) -> bool {
    p.len() <= w.len() && w.subrange(w.len() - p.len(), w.len() as int) == p
}

/// What one line of `ssh -G` output says of the configuration path: a
/// `userknownhostsfile` line whose file is named `known_hosts` points to the
/// `config` file beside it.
pub open spec fn config_path_of_line(line: Seq<char>) -> Option<Seq<char>> {
    let w = words(line);
    if has_prefix(line, "userknownhostsfile"@) && w.len() >= 2 && has_suffix(w[1], "/known_hosts"@) {
        Some(w[1].subrange(0, w[1].len() - 12) + "/config"@)
    } else {
        None
    }
}

/// What the first telling line of `ssh -G` output says.
pub open spec fn config_path_of_lines(lines: Seq<Seq<char>>) -> Option<Seq<char>>
    decreases lines.len(),
{
    if lines.len() == 0 {
        None
    } else {
        match config_path_of_lines(lines.drop_last()) {
            Some(p) => Some(p),
            None => config_path_of_line(lines.last()),
        }
    }
}

proof fn lemma_found_stays(ls: Seq<Seq<char>>, k: int)
    requires
        0 <= k <= ls.len(),
        config_path_of_lines(ls.subrange(0, k)) is Some,
    ensures
        config_path_of_lines(ls) == config_path_of_lines(ls.subrange(0, k)),
    decreases ls.len() - k,
{
    if k == ls.len() {
        assert(ls.subrange(0, k) =~= ls);
    } else {
        assert(ls.subrange(0, k + 1).drop_last() =~= ls.subrange(0, k));
        lemma_found_stays(ls, k + 1);
    }
}

fn ends_with_lit(w: &Vec<char>, p: &str) -> (r: bool)
    ensures
        r == has_suffix(w@, p@),
{
    let pc = chars_of(p);
    if pc.len() > w.len() {
        return false;
    }
    let tail = slice_of(w, w.len() - pc.len(), w.len());
    crate::text::same_chars(&tail, &pc)
}

/// The SSH client configuration path that `ssh -G` output points to (see
/// `config_path_of_line`), if any line does.
pub fn config_path_from_ssh_output(output: &str) -> (r: Option<String>)
    ensures
        r matches Some(p) ==> config_path_of_lines(text_lines(output@)) == Some(p@),
        r is None ==> config_path_of_lines(text_lines(output@)) is None,
{
    let lines = crate::parse::lines_of(output);
    let ghost ls = seqs(lines@);
    let mut i: usize = 0;
    while i < lines.len()
        invariant
            i <= lines.len(),
            ls == seqs(lines@),
            ls == text_lines(output@),
            config_path_of_lines(ls.subrange(0, i as int)) is None,
        decreases lines.len() - i,
    {
        proof {
            reveal_strlit("/known_hosts");
            reveal_strlit("/config");
        }
        assert(ls.subrange(0, i + 1).drop_last() =~= ls.subrange(0, i as int));
        assert(ls.subrange(0, i + 1).last() == lines[i as int]@);
        let line = &lines[i];
        if starts_with_lit(line, "userknownhostsfile") {
            let w = crate::text::split_words(line);
            if w.len() >= 2 {
                assert(seqs(w@)[1] == w[1]@);
                if ends_with_lit(&w[1], "/known_hosts") {
                    let mut dir = slice_of(&w[1], 0, w[1].len() - 12);
                    let mut suffix = chars_of("/config");
                    let ghost d0 = dir@;
                    dir.append(&mut suffix);
                    assert(dir@ == d0 + "/config"@);
                    assert(config_path_of_line(lines[i as int]@) == Some(dir@));
                    proof {
                        lemma_found_stays(ls, i + 1);
                    }
                    return Some(string_of(&dir));
                }
            }
        }
        i = i + 1;
    }
    assert(ls.subrange(0, i as int) =~= ls);
    None
}

} // verus!
