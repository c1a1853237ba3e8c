//! The connection registry: at most one registered SSH master connection per
//! server, under a capacity bound. The processes and socket files themselves
//! are handled by the caller; the registry decides which connection to reuse,
//! which to evict and whether a new one may be admitted.

use crate::parse::strings;
use crate::text::{chars_of, same_text, string_of};
use vstd::prelude::*;

verus! {

/// The capacity that a pool has unless told otherwise.
pub const DEFAULT_MAX_CONNECTIONS: usize = 50;

/// One registered connection.
#[derive(Debug)]
pub struct ConnectionRecord {
    pub connection_id: String,
    pub server_id: String,
    /// The `user@host` pair that health probes address.
    pub username: String,
    pub host: String,
    /// When the connection last carried a command.
    pub last_used: u64,
    pub is_active: bool,
}

/// Whether no two records belong to one server.
pub open spec fn unique_servers(s: Seq<ConnectionRecord>) -> bool {
    forall|i: int, j: int|
        0 <= i < s.len() && 0 <= j < s.len() && i != j ==> s[i].server_id@ != s[j].server_id@
}

/// Whether no two records share a connection id.
pub open spec fn unique_ids(s: Seq<ConnectionRecord>) -> bool {
    forall|i: int, j: int|
        0 <= i < s.len() && 0 <= j < s.len() && i != j ==> s[i].connection_id@ != s[j].connection_id@
}

proof fn lemma_filter_unique_ids(s: Seq<ConnectionRecord>, p: spec_fn(ConnectionRecord) -> bool)
    requires
        unique_ids(s),
    ensures
        unique_ids(s.filter(p)),
    decreases s.len(),
{
    reveal(Seq::filter);
    if s.len() > 0 {
        let rest = s.drop_last();
        assert(unique_ids(rest)) by {
            assert forall|i: int, j: int|
                0 <= i < rest.len() && 0 <= j < rest.len() && i != j implies rest[i].connection_id@
                != rest[j].connection_id@ by {
                assert(rest[i] == s[i] && rest[j] == s[j]);
            }
        }
        lemma_filter_unique_ids(rest, p);
        let f = rest.filter(p);
        assert forall|k: int| 0 <= k < f.len() implies f[k].connection_id@ != s.last().connection_id@ by {
            assert(f.contains(f[k]));
            rest.lemma_filter_contains_rev(p, f[k]);
            let m = choose|m: int| 0 <= m < rest.len() && rest[m] == f[k];
            assert(s[m] == f[k]);
        }
    }
}

/// The connection ids of the records, in order.
pub open spec fn ids_of(s: Seq<ConnectionRecord>) -> Seq<Seq<char>> {
    s.map_values(|x: ConnectionRecord| x.connection_id@)
}

/// The records whose connection id is not among `ids`.
pub open spec fn without_ids(s: Seq<ConnectionRecord>, ids: Seq<Seq<char>>) -> Seq<ConnectionRecord> {
    s.filter(|x: ConnectionRecord| !ids.contains(x.connection_id@))
}

/// The records whose connection id is among `ids`.
pub open spec fn with_ids(s: Seq<ConnectionRecord>, ids: Seq<Seq<char>>) -> Seq<ConnectionRecord> {
    s.filter(|x: ConnectionRecord| ids.contains(x.connection_id@))
}

/// Whether some record belongs to `server`.
pub open spec fn has_server(s: Seq<ConnectionRecord>, server: Seq<char>) -> bool {
    exists|i: int| 0 <= i < s.len() && s[i].server_id@ == server
}

/// The connection id registered for `server`.
pub open spec fn registered_id(s: Seq<ConnectionRecord>, server: Seq<char>) -> Option<Seq<char>> {
    if has_server(s, server) {
        Some(s[choose|i: int| 0 <= i < s.len() && s[i].server_id@ == server].connection_id@)
    } else {
        None
    }
}

proof fn lemma_filter_unique(s: Seq<ConnectionRecord>, p: spec_fn(ConnectionRecord) -> bool)
    requires
        unique_servers(s),
    ensures
        unique_servers(s.filter(p)),
        forall|k: int| 0 <= k < s.filter(p).len() ==> s.contains(#[trigger] s.filter(p)[k]),
    decreases s.len(),
{
    reveal(Seq::filter);
    if s.len() > 0 {
        let rest = s.drop_last();
        assert(unique_servers(rest)) by {
            assert forall|i: int, j: int|
                0 <= i < rest.len() && 0 <= j < rest.len() && i != j implies rest[i].server_id@
                != rest[j].server_id@ by {
                assert(rest[i] == s[i] && rest[j] == s[j]);
            }
        }
        lemma_filter_unique(rest, p);
        let f = rest.filter(p);
        assert forall|k: int| 0 <= k < f.len() implies f[k].server_id@ != s.last().server_id@
            && s.contains(f[k]) by {
            assert(rest.contains(f[k]));
            let m = choose|m: int| 0 <= m < rest.len() && rest[m] == f[k];
            assert(s[m] == f[k]);
        }
        if p(s.last()) {
            let g = f.push(s.last());
            assert(s.filter(p) == g);
            assert forall|k: int| 0 <= k < g.len() implies s.contains(#[trigger] g[k]) by {
                if k == g.len() - 1 {
                    assert(s[s.len() - 1] == g[k]);
                }
            }
        }
    }
}

/// Relies on `uuid::Uuid::new_v4` and the hyphenated form that its `Display`
/// writes: a random id of 36 characters.
#[verifier::external_body]
pub(crate) fn new_uuid() -> (r: String)
    ensures
        r@.len() == 36,
{
    uuid::Uuid::new_v4().to_string()
}

/// A copy of a record.
fn copy_record(r: &ConnectionRecord) -> (c: ConnectionRecord)
    ensures
        c == *r,
{
    ConnectionRecord {
        connection_id: r.connection_id.clone(),
        server_id: r.server_id.clone(),
        username: r.username.clone(),
        host: r.host.clone(),
        last_used: r.last_used,
        is_active: r.is_active,
    }
}

/// Whether `id` is among `ids`.
fn id_in(id: &String, ids: &Vec<String>) -> (r: bool)
    ensures
        r == strings(ids@).contains(id@),
{
    let mut i: usize = 0;
    while i < ids.len()
        invariant
            i <= ids.len(),
            forall|j: int| 0 <= j < i ==> ids@[j]@ != id@,
        decreases ids.len() - i,
    {
        if ids[i] == *id {
            assert(strings(ids@)[i as int] == id@);
            return true;
        }
        i = i + 1;
    }
    assert forall|j: int| 0 <= j < strings(ids@).len() implies strings(ids@)[j] != id@ by {
        assert(strings(ids@)[j] == ids@[j]@);
    }
    false
}

/// Splits `recs` into the records whose id is not among `drop` and the ids of those that are.
fn partition(recs: &Vec<ConnectionRecord>, drop: &Vec<String>) -> (r: (
    Vec<ConnectionRecord>,
    Vec<String>,
))
    ensures
        r.0@ == without_ids(recs@, strings(drop@)),
        strings(r.1@) == ids_of(with_ids(recs@, strings(drop@))),
{
    let ghost ids = strings(drop@);
    let ghost keep = |x: ConnectionRecord| !ids.contains(x.connection_id@);
    let ghost gone = |x: ConnectionRecord| ids.contains(x.connection_id@);
    let mut kept: Vec<ConnectionRecord> = Vec::new();
    let mut dropped: Vec<String> = Vec::new();
    let mut i: usize = 0;
    assert(recs@.subrange(0, 0).filter(keep) =~= Seq::empty()) by {
        reveal(Seq::filter);
    }
    assert(recs@.subrange(0, 0).filter(gone) =~= Seq::empty()) by {
        reveal(Seq::filter);
    }
    while i < recs.len()
        invariant
            i <= recs.len(),
            ids == strings(drop@),
            keep == (|x: ConnectionRecord| !ids.contains(x.connection_id@)),
            gone == (|x: ConnectionRecord| ids.contains(x.connection_id@)),
            kept@ == recs@.subrange(0, i as int).filter(keep),
            strings(dropped@) == ids_of(recs@.subrange(0, i as int).filter(gone)),
        decreases recs.len() - i,
    {
        proof {
            reveal(Seq::filter);
            assert(recs@.subrange(0, i + 1).drop_last() =~= recs@.subrange(0, i as int));
        }
        let ghost before = dropped@;
        if id_in(&recs[i].connection_id, drop) {
            dropped.push(recs[i].connection_id.clone());
            assert(strings(dropped@) =~= strings(before).push(recs@[i as int].connection_id@));
            assert(ids_of(recs@.subrange(0, i + 1).filter(gone)) =~= ids_of(
                recs@.subrange(0, i as int).filter(gone),
            ).push(recs@[i as int].connection_id@));
        } else {
            kept.push(copy_record(&recs[i]));
        }
        i = i + 1;
    }
    assert(recs@.subrange(0, i as int) =~= recs@);
    (kept, dropped)
}

/// Why a connection could not be had from the pool.
#[derive(Debug, Clone, Copy, PartialEq, Eq, Structural)]
pub enum PoolError {
    /// The pool is at capacity even after dead connections were swept.
    PoolExhausted,
    /// The id offered for a new connection is registered already.
    IdInUse,
}

/// What the caller is to do for a server.
#[derive(Debug, Clone)]
pub enum Admission {
    /// Use this registered, verified connection.
    Reuse(String),
    /// Start a connection under this id; it is registered already.
    Create(String),
}

/// The decision of `acquire`, and the connections whose processes the caller
/// is to stop and whose sockets it is to remove.
#[derive(Debug)]
pub struct Acquired {
    pub admission: Result<Admission, PoolError>,
    pub evicted: Vec<String>,
}

/// The connection id registered for `server`, as a sequence of ids (empty or one).
pub open spec fn stale_ids(s: Seq<ConnectionRecord>, server: Seq<char>) -> Seq<Seq<char>> {
    match registered_id(s, server) {
        Some(id) => seq![id],
        None => Seq::empty(),
    }
}

/// The records left once the registration of `server` is evicted.
pub open spec fn after_stale(s: Seq<ConnectionRecord>, server: Seq<char>) -> Seq<ConnectionRecord> {
    without_ids(s, stale_ids(s, server))
}

/// Whether the pool must sweep: it is at capacity once the stale registration is gone.
pub open spec fn must_sweep(s: Seq<ConnectionRecord>, server: Seq<char>, max: nat) -> bool {
    after_stale(s, server).len() >= max
}

/// The records left after the stale registration and, at capacity, the exited connections are gone.
pub open spec fn after_sweep(
    s: Seq<ConnectionRecord>,
    server: Seq<char>,
    max: nat,
    exited: Seq<Seq<char>>,
) -> Seq<ConnectionRecord> {
    if must_sweep(s, server, max) {
        without_ids(after_stale(s, server), exited)
    } else {
        after_stale(s, server)
    }
}

/// The ids that `acquire` evicts when it does not reuse.
pub open spec fn evicted_ids(
    s: Seq<ConnectionRecord>,
    server: Seq<char>,
    max: nat,
    exited: Seq<Seq<char>>,
) -> Seq<Seq<char>> {
    ids_of(with_ids(s, stale_ids(s, server))) + if must_sweep(s, server, max) {
        ids_of(with_ids(after_stale(s, server), exited))
    } else {
        Seq::empty()
    }
}

/// Whether the registered connection of `server` is the one the caller verified.
pub open spec fn reusable(s: Seq<ConnectionRecord>, server: Seq<char>, verified: Option<Seq<char>>) -> bool {
    registered_id(s, server) is Some && verified == registered_id(s, server)
}

pub open spec fn opt_string(o: Option<String>) -> Option<Seq<char>> {
    match o {
        Some(s) => Some(s@),
        None => None,
    }
}

/// Whether `acquire` hands out a connection: it reuses the verified one, or
/// there is room once the stale registration and, at capacity, the exited
/// connections are gone.
pub open spec fn acquire_succeeds(
    s: Seq<ConnectionRecord>,
    server: Seq<char>,
    max: nat,
    verified: Option<Seq<char>>,
    exited: Seq<Seq<char>>,
) -> bool {
    reusable(s, server, verified) || after_sweep(s, server, max, exited).len() < max
}

proof fn lemma_filter_keeps_all<A>(s: Seq<A>, p: spec_fn(A) -> bool)
    requires
        forall|i: int| 0 <= i < s.len() ==> p(#[trigger] s[i]),
    ensures
        s.filter(p) == s,
    decreases s.len(),
{
    reveal(Seq::filter);
    if s.len() > 0 {
        lemma_filter_keeps_all(s.drop_last(), p);
        assert(s.drop_last().push(s.last()) =~= s);
    }
}

proof fn lemma_filter_drops_all<A>(s: Seq<A>, p: spec_fn(A) -> bool)
    requires
        forall|i: int| 0 <= i < s.len() ==> !p(#[trigger] s[i]),
    ensures
        s.filter(p).len() == 0,
    decreases s.len(),
{
    reveal(Seq::filter);
    if s.len() > 0 {
        lemma_filter_drops_all(s.drop_last(), p);
    }
}

/// In a well-formed pool no two registrations belong to one server; every
/// operation on a pool keeps it well formed, so this holds at every moment.
pub proof fn lemma_one_connection_per_server(pool: &ConnectionPool, i: int, j: int)
    requires
        pool.wf(),
        0 <= i < pool.entries().len(),
        0 <= j < pool.entries().len(),
        i != j,
    ensures
        pool.entries()[i].server_id@ != pool.entries()[j].server_id@,
{
}

/// When every registered connection has exited, `acquire` succeeds, however
/// full the pool was: the sweep makes room.
pub proof fn lemma_acquire_after_dead_sweep(
    s: Seq<ConnectionRecord>,
    server: Seq<char>,
    max: nat,
    verified: Option<Seq<char>>,
    exited: Seq<Seq<char>>,
)
    requires
        max > 0,
        forall|i: int| 0 <= i < s.len() ==> exited.contains(#[trigger] s[i].connection_id@),
    ensures
        acquire_succeeds(s, server, max, verified, exited),
{
    let a = after_stale(s, server);
    if must_sweep(s, server, max) {
        let p = |x: ConnectionRecord| !exited.contains(x.connection_id@);
        assert forall|i: int| 0 <= i < a.len() implies !p(#[trigger] a[i]) by {
            reveal(Seq::filter);
            s.lemma_filter_contains_rev(
                |x: ConnectionRecord| !stale_ids(s, server).contains(x.connection_id@),
                a[i],
            );
        }
        lemma_filter_drops_all(a, p);
    }
}

/// When the pool is at capacity, holds nothing for the server and no
/// registered connection has exited, `acquire` fails with `PoolExhausted`.
pub proof fn lemma_acquire_exhausted(
    s: Seq<ConnectionRecord>,
    server: Seq<char>,
    max: nat,
    verified: Option<Seq<char>>,
    exited: Seq<Seq<char>>,
)
    requires
        s.len() >= max,
        !has_server(s, server),
        forall|i: int| 0 <= i < s.len() ==> !exited.contains(#[trigger] s[i].connection_id@),
    ensures
        !acquire_succeeds(s, server, max, verified, exited),
        after_sweep(s, server, max, exited) == s,
{
    assert(stale_ids(s, server) =~= Seq::<Seq<char>>::empty());
    lemma_filter_keeps_all(
        s,
        |x: ConnectionRecord| !stale_ids(s, server).contains(x.connection_id@),
    );
    lemma_filter_keeps_all(s, |x: ConnectionRecord| !exited.contains(x.connection_id@));
}

/// What `acquire` does, with `s` and `e` the registrations before and after,
/// `adm` and `evicted` its decision, and `fresh` the id offered.
pub open spec fn acquire_post(
    s: Seq<ConnectionRecord>,
    max: nat,
    e: Seq<ConnectionRecord>,
    adm: Result<Admission, PoolError>,
    evicted: Seq<Seq<char>>,
    server: Seq<char>,
    username: Seq<char>,
    host: Seq<char>,
    verified: Option<Seq<char>>,
    exited: Seq<Seq<char>>,
    fresh: Seq<char>,
    now: u64,
) -> bool {
    if reusable(s, server, verified) {
        &&& e == s
        &&& adm matches Ok(Admission::Reuse(id)) && id@ == registered_id(s, server)->0
        &&& evicted.len() == 0
    } else if ids_of(s).contains(fresh) {
        &&& e == s
        &&& adm == Err::<Admission, PoolError>(PoolError::IdInUse)
        &&& evicted.len() == 0
    } else {
        let left = after_sweep(s, server, max, exited);
        &&& evicted == evicted_ids(s, server, max, exited)
        &&& left.len() >= max ==> adm == Err::<Admission, PoolError>(PoolError::PoolExhausted) && e
            == left
        &&& left.len() < max ==> {
            &&& adm matches Ok(Admission::Create(id)) && id@ == fresh
            &&& e.len() == left.len() + 1
            &&& e.subrange(0, left.len() as int) == left
            &&& e[left.len() as int].connection_id@ == fresh
            &&& e[left.len() as int].server_id@ == server
            &&& e[left.len() as int].username@ == username
            &&& e[left.len() as int].host@ == host
            &&& e[left.len() as int].last_used == now
            &&& e[left.len() as int].is_active
        }
    }
}

/// The registry of SSH master connections.
pub struct ConnectionPool {
    records: Vec<ConnectionRecord>,
    max_connections: usize,
}

impl ConnectionPool {
    /// The registered connections, oldest first.
    pub closed spec fn entries(&self) -> Seq<ConnectionRecord> {
        self.records@
    }

    /// The capacity.
    pub closed spec fn limit(&self) -> nat {
        self.max_connections as nat
    }

    /// At most one registration per server, and no connection id used twice.
    pub open spec fn wf(&self) -> bool {
        unique_servers(self.entries()) && unique_ids(self.entries())
    }

    /// An empty pool of the given capacity.
    pub fn new(max_connections: usize) -> (r: Self)
        ensures
            r.wf(),
            r.entries().len() == 0,
            r.limit() == max_connections,
    {
        ConnectionPool { records: Vec::new(), max_connections }
    }

    /// An empty pool of the default capacity.
    pub fn with_default_capacity() -> (r: Self)
        ensures
            r.wf(),
            r.entries().len() == 0,
            r.limit() == DEFAULT_MAX_CONNECTIONS,
    {
        Self::new(DEFAULT_MAX_CONNECTIONS)
    }

    /// How many connections are registered.
    pub fn pool_size(&self) -> (r: usize)
        ensures
            r == self.entries().len(),
    {
        self.records.len()
    }

    pub fn max_connections(&self) -> (r: usize)
        ensures
            r == self.limit(),
    {
        self.max_connections
    }

    /// The connection id registered for a server.
    pub fn get_connection_id(&self, server_id: &str) -> (r: Option<String>)
        requires
            self.wf(),
        ensures
            opt_string(r) == registered_id(self.entries(), server_id@),
    {
        let mut i: usize = 0;
        while i < self.records.len()
            invariant
                i <= self.records.len(),
                self.wf(),
                forall|j: int| 0 <= j < i ==> self.records@[j].server_id@ != server_id@,
            decreases self.records.len() - i,
        {
            if same_text(self.records[i].server_id.as_str(), server_id) {
                let ghost s = self.entries();
                proof {
                    assert(s[i as int].server_id@ == server_id@);
                    assert(has_server(s, server_id@));
                    assert(unique_servers(s));
                    let k = choose|k: int| 0 <= k < s.len() && s[k].server_id@ == server_id@;
                    if k != i as int {
                        assert(s[k].server_id@ != s[i as int].server_id@);
                    }
                }
                return Some(self.records[i].connection_id.clone());
            }
            i = i + 1;
        }
        None
    }

    /// Whether a connection id is registered.
    pub fn has_connection(&self, connection_id: &str) -> (r: bool)
        ensures
            r == ids_of(self.entries()).contains(connection_id@),
    {
        let mut i: usize = 0;
        while i < self.records.len()
            invariant
                i <= self.records.len(),
                forall|j: int| 0 <= j < i ==> self.records@[j].connection_id@ != connection_id@,
            decreases self.records.len() - i,
        {
            if same_text(self.records[i].connection_id.as_str(), connection_id) {
                assert(ids_of(self.entries())[i as int] == connection_id@);
                return true;
            }
            i = i + 1;
        }
        assert forall|j: int| 0 <= j < ids_of(self.entries()).len() implies ids_of(
            self.entries(),
        )[j] != connection_id@ by {
            assert(ids_of(self.entries())[j] == self.records@[j].connection_id@);
        }
        false
    }

    /// The `(username, host)` pair of a registered connection.
    pub fn get_connection_hosts(&self, connection_id: &str) -> (r: Option<(String, String)>)
        ensures
            r matches Some(p) ==> exists|i: int|
                0 <= i < self.entries().len() && #[trigger] self.entries()[i].connection_id@
                    == connection_id@ && self.entries()[i].username@ == p.0@
                    && self.entries()[i].host@ == p.1@,
            r is None ==> !ids_of(self.entries()).contains(connection_id@),
    {
        let mut i: usize = 0;
        while i < self.records.len()
            invariant
                i <= self.records.len(),
                forall|j: int| 0 <= j < i ==> self.records@[j].connection_id@ != connection_id@,
            decreases self.records.len() - i,
        {
            if same_text(self.records[i].connection_id.as_str(), connection_id) {
                assert(self.entries()[i as int].connection_id@ == connection_id@);
                return Some((self.records[i].username.clone(), self.records[i].host.clone()));
            }
            i = i + 1;
        }
        assert forall|j: int| 0 <= j < ids_of(self.entries()).len() implies ids_of(
            self.entries(),
        )[j] != connection_id@ by {
            assert(ids_of(self.entries())[j] == self.records@[j].connection_id@);
        }
        None
    }

    /// Evicts a connection: every record under `connection_id` goes. Evicting
    /// an id that is not registered changes nothing. Returns the ids removed.
    pub fn evict(&mut self, connection_id: &str) -> (r: Vec<String>)
        requires
            old(self).wf(),
        ensures
            final(self).wf(),
            final(self).limit() == old(self).limit(),
            final(self).entries() == without_ids(old(self).entries(), seq![connection_id@]),
            strings(r@) == ids_of(with_ids(old(self).entries(), seq![connection_id@])),
    {
        let drop: Vec<String> = vec![connection_id.to_string()];
        assert(strings(drop@) =~= seq![connection_id@]);
        let (kept, removed) = partition(&self.records, &drop);
        proof {
            lemma_filter_unique(
                self.records@,
                |x: ConnectionRecord| !seq![connection_id@].contains(x.connection_id@),
            );
        }
        self.records = kept;
        removed
    }

    /// Evicts every connection whose process has exited; `exited` holds their
    /// ids. Returns the ids removed.
    pub fn sweep(&mut self, exited: &Vec<String>) -> (r: Vec<String>)
        requires
            old(self).wf(),
        ensures
            final(self).wf(),
            final(self).limit() == old(self).limit(),
            final(self).entries() == without_ids(old(self).entries(), strings(exited@)),
            strings(r@) == ids_of(with_ids(old(self).entries(), strings(exited@))),
    {
        let (kept, removed) = partition(&self.records, exited);
        proof {
            lemma_filter_unique(
                self.records@,
                |x: ConnectionRecord| !strings(exited@).contains(x.connection_id@),
            );
        }
        self.records = kept;
        removed
    }

    /// Records that the connection of `server_id` carried a command at `now`.
    pub fn touch(&mut self, server_id: &str, now: u64)
        requires
            old(self).wf(),
        ensures
            final(self).wf(),
            final(self).limit() == old(self).limit(),
            final(self).entries().len() == old(self).entries().len(),
            forall|i: int|
                0 <= i < old(self).entries().len() ==> #[trigger] final(self).entries()[i] == (if old(
                    self,
                ).entries()[i].server_id@ == server_id@ {
                    ConnectionRecord { last_used: now, ..old(self).entries()[i] }
                } else {
                    old(self).entries()[i]
                }),
    {
        let ghost s = self.records@;
        let mut out: Vec<ConnectionRecord> = Vec::new();
        let mut i: usize = 0;
        while i < self.records.len()
            invariant
                i <= self.records.len(),
                s == self.records@,
                out@.len() == i,
                forall|j: int|
                    0 <= j < i ==> #[trigger] out@[j] == (if s[j].server_id@ == server_id@ {
                        ConnectionRecord { last_used: now, ..s[j] }
                    } else {
                        s[j]
                    }),
            decreases self.records.len() - i,
        {
            let mut c = copy_record(&self.records[i]);
            if same_text(c.server_id.as_str(), server_id) {
                c.last_used = now;
            }
            out.push(c);
            i = i + 1;
        }
        self.records = out;
        assert forall|a: int, b: int|
            0 <= a < out@.len() && 0 <= b < out@.len() && a != b implies out@[a].server_id@
            != out@[b].server_id@ by {
            assert(out@[a].server_id == s[a].server_id && out@[b].server_id == s[b].server_id);
        }
    }

    /// Decides how `server_id` gets a connection. `verified` is the id of the
    /// connection that the caller found healthy, if any; `exited` holds the
    /// ids of connections whose processes have exited; `fresh_id` names a new
    /// connection.
    ///
    /// The registered connection is reused when it is the verified one.
    /// Otherwise it is evicted; if the pool is then at capacity, the exited
    /// connections are swept; if it is still at capacity the pool is
    /// exhausted, else a new connection under `fresh_id` is registered at once.
    pub fn acquire(
        &mut self,
        server_id: &str,
        username: &str,
        host: &str,
        verified: Option<String>,
        exited: &Vec<String>,
        fresh_id: String,
        now: u64,
    ) -> (r: Acquired)
        requires
            old(self).wf(),
        ensures
            final(self).wf(),
            final(self).limit() == old(self).limit(),
            r.admission is Ok <==> (reusable(old(self).entries(), server_id@, opt_string(verified))
                || !ids_of(old(self).entries()).contains(fresh_id@)) && acquire_succeeds(
                old(self).entries(),
                server_id@,
                old(self).limit(),
                opt_string(verified),
                strings(exited@),
            ),
            acquire_post(
                old(self).entries(),
                old(self).limit(),
                final(self).entries(),
                r.admission,
                strings(r.evicted@),
                server_id@,
                username@,
                host@,
                opt_string(verified),
                strings(exited@),
                fresh_id@,
                now,
            ),
    {
        let ghost s = self.records@;
        let ghost server = server_id@;
        let cur = self.get_connection_id(server_id);
        if let Some(c) = &cur {
            if let Some(v) = &verified {
                if *c == *v {
                    return Acquired { admission: Ok(Admission::Reuse(c.clone())), evicted: Vec::new() };
                }
            }
        }
        if self.has_connection(fresh_id.as_str()) {
            return Acquired { admission: Err(PoolError::IdInUse), evicted: Vec::new() };
        }
        let stale: Vec<String> = match cur {
            Some(c) => vec![c],
            None => Vec::new(),
        };
        assert(strings(stale@) =~= stale_ids(s, server));
        let (after_evict, ev1) = partition(&self.records, &stale);
        let ghost keep1 = |x: ConnectionRecord| !stale_ids(s, server).contains(x.connection_id@);
        proof {
            lemma_filter_unique(s, keep1);
            lemma_filter_unique_ids(s, keep1);
            assert forall|k: int| 0 <= k < after_evict@.len() implies after_evict@[k].connection_id@
                != fresh_id@ by {
                assert(s.contains(after_evict@[k]));
                let m = choose|m: int| 0 <= m < s.len() && s[m] == after_evict@[k];
                assert(ids_of(s)[m] == s[m].connection_id@);
            }
            assert forall|k: int| 0 <= k < after_evict@.len() implies after_evict@[k].server_id@ != server by {
                assert(s.contains(after_evict@[k]));
                let m = choose|m: int| 0 <= m < s.len() && s[m] == after_evict@[k];
                if s[m].server_id@ == server {
                    assert(has_server(s, server));
                    let q = choose|q: int| 0 <= q < s.len() && s[q].server_id@ == server;
                    if q != m {
                        assert(s[q].server_id@ != s[m].server_id@);
                    }
                    assert(keep1(after_evict@[k])) by {
                        reveal(Seq::filter);
                        s.lemma_filter_pred(keep1, k);
                    }
                    assert(stale_ids(s, server)[0] == s[m].connection_id@);
                    assert(false);
                }
            }
        }
        let mut evicted = ev1;
        let mut left: Vec<ConnectionRecord>;
        if after_evict.len() >= self.max_connections {
            let (after_sweep_recs, ev2) = partition(&after_evict, exited);
            let mut ev2 = ev2;
            let ghost e1 = evicted@;
            evicted.append(&mut ev2);
            assert(strings(evicted@) =~= strings(e1) + ids_of(with_ids(after_evict@, strings(exited@))));
            proof {
                let keep2 = |x: ConnectionRecord| !strings(exited@).contains(x.connection_id@);
                lemma_filter_unique(after_evict@, keep2);
                lemma_filter_unique_ids(after_evict@, keep2);
                assert forall|k: int| 0 <= k < after_sweep_recs@.len() implies after_sweep_recs@[k].server_id@
                    != server && after_sweep_recs@[k].connection_id@ != fresh_id@ by {
                    assert(after_evict@.contains(after_sweep_recs@[k]));
                }
            }
            left = after_sweep_recs;
        } else {
            assert(strings(evicted@) =~= strings(evicted@) + Seq::<Seq<char>>::empty());
            left = after_evict;
        }
        if left.len() >= self.max_connections {
            self.records = left;
            return Acquired { admission: Err(PoolError::PoolExhausted), evicted };
        }
        let ghost before = left@;
        let id = fresh_id.clone();
        left.push(
            ConnectionRecord {
                connection_id: fresh_id,
                server_id: server_id.to_string(),
                username: username.to_string(),
                host: host.to_string(),
                last_used: now,
                is_active: true,
            },
        );
        assert(left@.subrange(0, before.len() as int) =~= before);
        assert forall|a: int, b: int|
            0 <= a < left@.len() && 0 <= b < left@.len() && a != b implies left@[a].server_id@
            != left@[b].server_id@ && left@[a].connection_id@ != left@[b].connection_id@ by {
            if a < before.len() && b < before.len() {
                assert(left@[a] == before[a] && left@[b] == before[b]);
            } else if a < before.len() {
                assert(left@[a] == before[a]);
            } else {
                assert(left@[b] == before[b]);
            }
        }
        self.records = left;
        Acquired { admission: Ok(Admission::Create(id)), evicted }
    }

    /// The length of the longest registered connection id.
    fn longest_id(&self) -> (m: usize)
        ensures
            forall|i: int| 0 <= i < self.entries().len() ==> self.entries()[i].connection_id@.len() <= m,
    {
        let mut m: usize = 0;
        let mut i: usize = 0;
        while i < self.records.len()
            invariant
                i <= self.records.len(),
                forall|j: int| 0 <= j < i ==> self.records@[j].connection_id@.len() <= m,
            decreases self.records.len() - i,
        {
            let n = chars_of(self.records[i].connection_id.as_str()).len();
            if n > m {
                m = n;
            }
            i = i + 1;
        }
        m
    }

    /// `acquire` with a new random connection id of at least 36 characters. A
    /// drawn id that is registered already is lengthened with `-` until it is
    /// longer than every registered id, so the id offered is always unused and
    /// everything `acquire` states holds for it.
    pub fn acquire_connection(
        &mut self,
        server_id: &str,
        username: &str,
        host: &str,
        verified: Option<String>,
        exited: &Vec<String>,
        now: u64,
    ) -> (r: Acquired)
        requires
            old(self).wf(),
        ensures
            final(self).wf(),
            final(self).limit() == old(self).limit(),
            r.admission is Ok <==> acquire_succeeds(
                old(self).entries(),
                server_id@,
                old(self).limit(),
                opt_string(verified),
                strings(exited@),
            ),
            r.admission != Err::<Admission, PoolError>(PoolError::IdInUse),
            exists|f: Seq<char>|
                #![trigger acquire_post(old(self).entries(), old(self).limit(), final(self).entries(), r.admission, strings(r.evicted@), server_id@, username@, host@, opt_string(verified), strings(exited@), f, now)]
                f.len() >= 36 && !ids_of(old(self).entries()).contains(f) && acquire_post(
                    old(self).entries(),
                    old(self).limit(),
                    final(self).entries(),
                    r.admission,
                    strings(r.evicted@),
                    server_id@,
                    username@,
                    host@,
                    opt_string(verified),
                    strings(exited@),
                    f,
                    now,
                ),
    {
        let mut fresh = new_uuid();
        if self.has_connection(fresh.as_str()) {
            let m = self.longest_id();
            let mut v = chars_of(fresh.as_str());
            loop
                invariant
                    v@.len() >= 36,
                    v@.len() <= m as int + 1,
                ensures
                    v@.len() > m,
                decreases m as int + 1 - v@.len(),
            {
                if v.len() > m {
                    break;
                }
                v.push('-');
            }
            fresh = string_of(&v);
            assert forall|k: int| 0 <= k < ids_of(self.entries()).len() implies ids_of(
                self.entries(),
            )[k] != fresh@ by {
                assert(ids_of(self.entries())[k] == self.entries()[k].connection_id@);
            }
        }
        assert(!ids_of(self.entries()).contains(fresh@));
        let ghost f = fresh@;
        let r = self.acquire(server_id, username, host, verified, exited, fresh, now);
        r
    }
}

} // verus!
