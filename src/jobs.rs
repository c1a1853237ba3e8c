//! The job ledger: a bounded history of collection attempts, each moving
//! through `Pending`, `Running` and a final state.

use crate::probe::MetricFamily;
use crate::text::{chars_of, same_text, string_of};
use vstd::prelude::*;

verus! {

/// How many jobs the ledger keeps; the oldest go first.
pub const MAX_JOBS: usize = 200;

/// Where a job stands. `Retrying` and `Paused` are kept for records made
/// elsewhere; no operation of the ledger produces them.
#[derive(Debug, Clone, Copy, PartialEq, Eq, Structural)]
pub enum JobStatus {
    Pending,
    Running,
    Completed,
    Failed,
    Cancelled,
    Retrying,
    Paused,
}

#[derive(Debug, Clone, Copy, PartialEq, Eq, Structural)]
pub enum JobKind {
    /// Started by the scheduler when a server fell due.
    Scheduled,
    /// Asked for by an operator.
    Manual,
}

/// One collection attempt. Times are milliseconds since the Unix epoch.
#[derive(Debug)]
pub struct MonitoringJob {
    pub id: String,
    pub server_id: String,
    pub server_name: String,
    pub kind: JobKind,
    pub status: JobStatus,
    pub created_at: u64,
    pub started_at: Option<u64>,
    pub completed_at: Option<u64>,
    pub duration_ms: Option<u64>,
    pub error: Option<String>,
    pub metrics_collected: Vec<MetricFamily>,
    pub retry_count: u32,
    pub priority: u8,
}

/// A new pending job for a server, created at `now` under a random id.
pub fn new_job(server_id: &str, server_name: &str, kind: JobKind, now: u64) -> (r: MonitoringJob)
    ensures
        r.id@.len() == 36,
        r.server_id@ == server_id@,
        r.server_name@ == server_name@,
        r.kind == kind,
        r.status == JobStatus::Pending,
        r.created_at == now,
        r.started_at is None,
        r.completed_at is None,
        r.duration_ms is None,
        r.error is None,
        r.metrics_collected@.len() == 0,
        r.retry_count == 0,
        r.priority == 0,
{
    MonitoringJob {
        id: crate::pool::new_uuid(),
        server_id: server_id.to_string(),
        server_name: server_name.to_string(),
        kind,
        status: JobStatus::Pending,
        created_at: now,
        started_at: None,
        completed_at: None,
        duration_ms: None,
        error: None,
        metrics_collected: Vec::new(),
        retry_count: 0,
        priority: 0,
    }
}

/// The rank of a status along `Pending`, `Running`, final: it never goes down.
pub open spec fn rank(s: JobStatus) -> nat {
    match s {
        JobStatus::Pending => 0,
        JobStatus::Running => 1,
        JobStatus::Retrying => 1,
        JobStatus::Paused => 1,
        _ => 2,
    }
}

/// Whether no two jobs share an id.
pub open spec fn unique_ids(s: Seq<MonitoringJob>) -> bool {
    forall|i: int, j: int| 0 <= i < s.len() && 0 <= j < s.len() && i != j ==> s[i].id@ != s[j].id@
}

/// The position of the job with id `id`.
pub open spec fn job_index(s: Seq<MonitoringJob>, id: Seq<char>) -> Option<int> {
    if exists|i: int| 0 <= i < s.len() && s[i].id@ == id {
        Some(choose|i: int| 0 <= i < s.len() && s[i].id@ == id)
    } else {
        None
    }
}

/// The ledger, oldest job first.
pub struct JobLedger {
    jobs: Vec<MonitoringJob>,
}

impl JobLedger {
    pub closed spec fn entries(&self) -> Seq<MonitoringJob> {
        self.jobs@
    }

    /// At most `MAX_JOBS` jobs, with distinct ids.
    pub open spec fn wf(&self) -> bool {
        self.entries().len() <= MAX_JOBS && unique_ids(self.entries())
    }

    pub fn new() -> (r: Self)
        ensures
            r.wf(),
            r.entries().len() == 0,
    {
        JobLedger { jobs: Vec::new() }
    }

    pub fn len(&self) -> (r: usize)
        ensures
            r == self.entries().len(),
    {
        self.jobs.len()
    }

    fn find(&self, id: &str) -> (r: Option<usize>)
        requires
            self.wf(),
        ensures
            r matches Some(i) ==> job_index(self.entries(), id@) == Some(i as int),
            r is None ==> job_index(self.entries(), id@) is None,
    {
        let mut i: usize = 0;
        while i < self.jobs.len()
            invariant
                i <= self.jobs.len(),
                self.wf(),
                forall|j: int| 0 <= j < i ==> self.jobs@[j].id@ != id@,
            decreases self.jobs.len() - i,
        {
            if same_text(self.jobs[i].id.as_str(), id) {
                let ghost s = self.entries();
                proof {
                    assert(s[i as int].id@ == id@);
                    let k = choose|k: int| 0 <= k < s.len() && s[k].id@ == id@;
                    if k != i as int {
                        assert(s[k].id@ != s[i as int].id@);
                    }
                }
                return Some(i);
            }
            i = i + 1;
        }
        None
    }

    /// Marks a pending job as running from `now`; other jobs are left alone.
    pub fn start(&mut self, id: &str, now: u64) -> (r: bool)
        requires
            old(self).wf(),
        ensures
            final(self).wf(),
            ({
                let s = old(self).entries();
                match job_index(s, id@) {
                    Some(i) => if s[i].status == JobStatus::Pending {
                        r && final(self).entries() == s.update(
                            i,
                            MonitoringJob { status: JobStatus::Running, started_at: Some(now), ..s[i] },
                        )
                    } else {
                        !r && final(self).entries() == s
                    },
                    None => !r && final(self).entries() == s,
                }
            }),
    {
        match self.find(id) {
            Some(i) => {
                if self.jobs[i].status == JobStatus::Pending {
                    self.jobs[i].status = JobStatus::Running;
                    self.jobs[i].started_at = Some(now);
                    true
                } else {
                    false
                }
            },
            None => false,
        }
    }

    /// Appends a job; at `MAX_JOBS` the oldest is dropped first. A job whose id
    /// is taken is refused and nothing changes.
    pub fn add_job(&mut self, job: MonitoringJob) -> (r: bool)
        requires
            old(self).wf(),
        ensures
            final(self).wf(),
            ({
                let s = old(self).entries();
                if job_index(s, job.id@) is Some {
                    !r && final(self).entries() == s
                } else if s.len() < MAX_JOBS {
                    r && final(self).entries() == s.push(job) && final(self).entries().len()
                        == s.len() + 1
                } else {
                    r && final(self).entries() == s.drop_first().push(job) && final(self).entries().len()
                        == MAX_JOBS && final(self).entries().last() == job && (forall|i: int|
                        0 <= i < MAX_JOBS - 1 ==> #[trigger] final(self).entries()[i] == s[i + 1])
                }
            }),
    {
        if self.find(job.id.as_str()).is_some() {
            return false;
        }
        let ghost s = self.jobs@;
        if self.jobs.len() >= MAX_JOBS {
            self.jobs.remove(0);
            assert(self.jobs@ =~= s.drop_first());
        }
        let ghost mid = self.jobs@;
        self.jobs.push(job);
        assert forall|a: int, b: int|
            0 <= a < self.jobs@.len() && 0 <= b < self.jobs@.len() && a != b implies self.jobs@[a].id@
            != self.jobs@[b].id@ by {
            if a < mid.len() && b < mid.len() {
                assert(self.jobs@[a] == mid[a] && self.jobs@[b] == mid[b]);
                if s.len() >= MAX_JOBS {
                    assert(mid[a] == s[a + 1] && mid[b] == s[b + 1]);
                }
            } else if a < mid.len() {
                assert(self.jobs@[a] == mid[a]);
                if s.len() >= MAX_JOBS {
                    assert(mid[a] == s[a + 1]);
                }
            } else {
                assert(self.jobs@[b] == mid[b]);
                if s.len() >= MAX_JOBS {
                    assert(mid[b] == s[b + 1]);
                }
            }
        }
        true
    }

    fn longest_id(&self) -> (m: usize)
        ensures
            forall|i: int| 0 <= i < self.entries().len() ==> self.entries()[i].id@.len() <= m,
    {
        let mut m: usize = 0;
        let mut i: usize = 0;
        while i < self.jobs.len()
            invariant
                i <= self.jobs.len(),
                forall|j: int| 0 <= j < i ==> self.jobs@[j].id@.len() <= m,
            decreases self.jobs.len() - i,
        {
            let n = chars_of(self.jobs[i].id.as_str()).len();
            if n > m {
                m = n;
            }
            i = i + 1;
        }
        m
    }

    /// Records a new pending job for a server at `now` and returns its id: a
    /// random id of at least 36 characters, lengthened with `-` past every id
    /// in the ledger if it was taken, so the job is always added, the oldest
    /// job making room at `MAX_JOBS`.
    pub fn create_job(&mut self, server_id: &str, server_name: &str, kind: JobKind, now: u64) -> (id: String)
        requires
            old(self).wf(),
        ensures
            final(self).wf(),
            job_index(old(self).entries(), id@) is None,
            id@.len() >= 36,
            ({
                let s = old(self).entries();
                let e = final(self).entries();
                let j = e.last();
                &&& e.len() == (if s.len() < MAX_JOBS {
                    s.len() + 1
                } else {
                    MAX_JOBS as nat
                })
                &&& s.len() < MAX_JOBS ==> e.drop_last() == s
                &&& s.len() >= MAX_JOBS ==> e.drop_last() == s.drop_first()
                &&& j.id@ == id@
                &&& j.server_id@ == server_id@
                &&& j.server_name@ == server_name@
                &&& j.kind == kind
                &&& j.status == JobStatus::Pending
                &&& j.created_at == now
                &&& j.started_at is None
                &&& j.completed_at is None
                &&& j.metrics_collected@.len() == 0
            }),
    {
        let mut job = new_job(server_id, server_name, kind, now);
        if self.find(job.id.as_str()).is_some() {
            let m = self.longest_id();
            let mut v = chars_of(job.id.as_str());
            loop
                invariant
                    v@.len() >= 36,
                    v@.len() <= m as int + 1,
                ensures
                    v@.len() > m,
                decreases m as int + 1 - v@.len(),
            {
                if v.len() > m {
                    break;
                }
                v.push('-');
            }
            job.id = string_of(&v);
            assert forall|i: int| 0 <= i < self.entries().len() implies self.entries()[i].id@
                != job.id@ by {}
        }
        assert(job_index(self.entries(), job.id@) is None);
        let id = job.id.clone();
        let ghost s = self.entries();
        let ghost j = job;
        let added = self.add_job(job);
        assert(added);
        proof {
            if s.len() < MAX_JOBS {
                assert(self.entries().drop_last() =~= s);
            } else {
                assert(self.entries().drop_last() =~= s.drop_first());
            }
        }
        id
    }

    /// Marks a running job as completed at `now`, with its duration and the
    /// families it collected.
    pub fn complete(&mut self, id: &str, now: u64, metrics: Vec<MetricFamily>) -> (r: bool)
        requires
            old(self).wf(),
        ensures
            final(self).wf(),
            ({
                let s = old(self).entries();
                match job_index(s, id@) {
                    Some(i) => if s[i].status == JobStatus::Running {
                        r && final(self).entries() == s.update(
                            i,
                            MonitoringJob {
                                status: JobStatus::Completed,
                                completed_at: Some(now),
                                duration_ms: Some(elapsed(s[i].started_at, now)),
                                metrics_collected: metrics,
                                ..s[i]
                            },
                        )
                    } else {
                        !r && final(self).entries() == s
                    },
                    None => !r && final(self).entries() == s,
                }
            }),
    {
        match self.find(id) {
            Some(i) => {
                if self.jobs[i].status == JobStatus::Running {
                    let d = elapsed_ms(self.jobs[i].started_at, now);
                    self.jobs[i].status = JobStatus::Completed;
                    self.jobs[i].completed_at = Some(now);
                    self.jobs[i].duration_ms = Some(d);
                    self.jobs[i].metrics_collected = metrics;
                    true
                } else {
                    false
                }
            },
            None => false,
        }
    }

    /// Marks a running job as failed at `now`, with its duration and error.
    pub fn fail(&mut self, id: &str, now: u64, error: String) -> (r: bool)
        requires
            old(self).wf(),
        ensures
            final(self).wf(),
            ({
                let s = old(self).entries();
                match job_index(s, id@) {
                    Some(i) => if s[i].status == JobStatus::Running {
                        r && final(self).entries() == s.update(
                            i,
                            MonitoringJob {
                                status: JobStatus::Failed,
                                completed_at: Some(now),
                                duration_ms: Some(elapsed(s[i].started_at, now)),
                                error: Some(error),
                                ..s[i]
                            },
                        )
                    } else {
                        !r && final(self).entries() == s
                    },
                    None => !r && final(self).entries() == s,
                }
            }),
    {
        match self.find(id) {
            Some(i) => {
                if self.jobs[i].status == JobStatus::Running {
                    let d = elapsed_ms(self.jobs[i].started_at, now);
                    self.jobs[i].status = JobStatus::Failed;
                    self.jobs[i].completed_at = Some(now);
                    self.jobs[i].duration_ms = Some(d);
                    self.jobs[i].error = Some(error);
                    true
                } else {
                    false
                }
            },
            None => false,
        }
    }

    /// Cancels a pending or running job at `now`; any other job, or an
    /// unknown id, is left as it is.
    pub fn cancel(&mut self, id: &str, now: u64) -> (r: bool)
        requires
            old(self).wf(),
        ensures
            final(self).wf(),
            ({
                let s = old(self).entries();
                match job_index(s, id@) {
                    Some(i) => if cancellable(s[i].status) {
                        r && final(self).entries() == s.update(
                            i,
                            MonitoringJob { status: JobStatus::Cancelled, completed_at: Some(now), ..s[i] },
                        )
                    } else {
                        !r && final(self).entries() == s
                    },
                    None => !r && final(self).entries() == s,
                }
            }),
    {
        match self.find(id) {
            Some(i) => {
                if self.jobs[i].status == JobStatus::Pending || self.jobs[i].status == JobStatus::Running {
                    self.jobs[i].status = JobStatus::Cancelled;
                    self.jobs[i].completed_at = Some(now);
                    true
                } else {
                    false
                }
            },
            None => false,
        }
    }
}

/// How many jobs have status `st`.
pub open spec fn count_status(s: Seq<MonitoringJob>, st: JobStatus) -> nat
    decreases s.len(),
{
    if s.len() == 0 {
        0
    } else {
        count_status(s.drop_last(), st) + if s.last().status == st {
            1nat
        } else {
            0nat
        }
    }
}

/// Whether a completed job has a recorded duration.
pub open spec fn timed(j: MonitoringJob) -> bool {
    j.status == JobStatus::Completed && j.duration_ms is Some
}

/// How many completed jobs have a duration.
pub open spec fn timed_count(s: Seq<MonitoringJob>) -> nat
    decreases s.len(),
{
    if s.len() == 0 {
        0
    } else {
        timed_count(s.drop_last()) + if timed(s.last()) {
            1nat
        } else {
            0nat
        }
    }
}

/// The sum of the durations of the completed jobs.
pub open spec fn timed_sum(s: Seq<MonitoringJob>) -> nat
    decreases s.len(),
{
    if s.len() == 0 {
        0
    } else {
        timed_sum(s.drop_last()) + if timed(s.last()) {
            s.last().duration_ms->0 as nat
        } else {
            0nat
        }
    }
}

proof fn lemma_timed_bounds(s: Seq<MonitoringJob>)
    ensures
        timed_count(s) <= s.len(),
        timed_sum(s) <= timed_count(s) * (u64::MAX as nat),
    decreases s.len(),
{
    if s.len() > 0 {
        lemma_timed_bounds(s.drop_last());
    }
}

/// Whether a job passes the filters of `list_jobs`.
pub open spec fn listed(j: MonitoringJob, status: Option<JobStatus>, server: Option<Seq<char>>) -> bool {
    (status matches Some(st) ==> j.status == st) && (server matches Some(sv) ==> j.server_id@ == sv)
}

/// The positions of the newest `limit` jobs that pass the filters, newest first.
pub open spec fn newest_matching(
    s: Seq<MonitoringJob>,
    status: Option<JobStatus>,
    server: Option<Seq<char>>,
    limit: nat,
) -> Seq<int>
    decreases s.len(),
{
    if s.len() == 0 || limit == 0 {
        Seq::empty()
    } else if listed(s.last(), status, server) {
        seq![s.len() - 1] + newest_matching(s.drop_last(), status, server, (limit - 1) as nat)
    } else {
        newest_matching(s.drop_last(), status, server, limit)
    }
}

/// Counts and rates over the ledger.
#[derive(Debug, Clone, Copy, PartialEq, Eq, Structural)]
pub struct JobStatistics {
    pub total: usize,
    pub pending: usize,
    pub running: usize,
    pub completed: usize,
    pub failed: usize,
    pub cancelled: usize,
    pub retrying: usize,
    pub paused: usize,
    /// The mean duration of the completed jobs, rounded down; 0 if there is none.
    pub average_duration_ms: u64,
    /// Completed over completed and failed, in thousandths of a percent,
    /// rounded down; `None` while no job has finished either way.
    pub success_rate_milli_percent: Option<u64>,
}

/// Which finished jobs a bulk clear removes.
#[derive(Debug, Clone, Copy, PartialEq, Eq, Structural)]
pub enum ClearScope {
    /// Completed and cancelled jobs.
    Finished,
    /// Failed jobs.
    Failed,
    /// Every job but the running ones.
    AllButRunning,
}

/// Whether a bulk clear of this scope keeps a job in this state.
pub open spec fn kept_by(scope: ClearScope, st: JobStatus) -> bool {
    match scope {
        ClearScope::Finished => !(st == JobStatus::Completed || st == JobStatus::Cancelled),
        ClearScope::Failed => st != JobStatus::Failed,
        ClearScope::AllButRunning => st == JobStatus::Running,
    }
}

fn keeps(scope: ClearScope, st: JobStatus) -> (r: bool)
    ensures
        r == kept_by(scope, st),
{
    match scope {
        ClearScope::Finished => !(st == JobStatus::Completed || st == JobStatus::Cancelled),
        ClearScope::Failed => st != JobStatus::Failed,
        ClearScope::AllButRunning => st == JobStatus::Running,
    }
}

impl JobLedger {
    /// The job at a position.
    pub fn job_at(&self, i: usize) -> (r: &MonitoringJob)
        requires
            i < self.entries().len(),
        ensures
            *r == self.entries()[i as int],
    {
        &self.jobs[i]
    }

    /// The positions of the newest `limit` jobs with the given status and
    /// server, newest first.
    pub fn list_jobs(&self, limit: usize, status: Option<JobStatus>, server_id: Option<&str>) -> (r: Vec<usize>)
        ensures
            r@.map_values(|i: usize| i as int) == newest_matching(
                self.entries(),
                status,
                match server_id {
                    Some(s) => Some(s@),
                    None => None,
                },
                limit as nat,
            ),
    {
        let ghost sv = match server_id {
            Some(s) => Some(s@),
            None => None::<Seq<char>>,
        };
        let ghost all = self.jobs@;
        let mut out: Vec<usize> = Vec::new();
        let mut k: usize = self.jobs.len();
        assert(all.subrange(0, k as int) =~= all);
        while k > 0 && out.len() < limit
            invariant
                k <= self.jobs.len(),
                all == self.jobs@,
                sv == match server_id {
                    Some(s) => Some(s@),
                    None => None::<Seq<char>>,
                },
                out@.len() <= limit,
                out@.map_values(|i: usize| i as int) + newest_matching(
                    all.subrange(0, k as int),
                    status,
                    sv,
                    (limit - out@.len()) as nat,
                ) == newest_matching(all, status, sv, limit as nat),
            decreases k,
        {
            let j = &self.jobs[k - 1];
            let ok_status = match status {
                Some(st) => j.status == st,
                None => true,
            };
            let ok_server = match server_id {
                Some(sid) => same_text(j.server_id.as_str(), sid),
                None => true,
            };
            let ghost pre = all.subrange(0, k as int);
            let ghost rem = (limit - out@.len()) as nat;
            assert(pre.drop_last() =~= all.subrange(0, k - 1));
            assert(pre.last() == all[k - 1]);
            let ghost before = out@;
            assert(ok_status <==> (status matches Some(st) ==> pre.last().status == st));
            assert(ok_server <==> (sv matches Some(v) ==> pre.last().server_id@ == v));
            assert(ok_status && ok_server <==> listed(pre.last(), status, sv));
            if ok_status && ok_server {
                out.push(k - 1);
                assert(out@.map_values(|i: usize| i as int) =~= before.map_values(|i: usize| i as int)
                    + seq![k - 1]);
                assert(newest_matching(pre, status, sv, rem) == seq![k - 1] + newest_matching(
                    all.subrange(0, k - 1),
                    status,
                    sv,
                    (rem - 1) as nat,
                ));
            } else {
                assert(newest_matching(pre, status, sv, rem) == newest_matching(
                    all.subrange(0, k - 1),
                    status,
                    sv,
                    rem,
                ));
            }
            k = k - 1;
        }
        if k == 0 {
            assert(newest_matching(all.subrange(0, 0), status, sv, (limit - out@.len()) as nat) =~= Seq::empty());
        } else {
            assert(newest_matching(all.subrange(0, k as int), status, sv, 0) =~= Seq::empty());
        }
        assert(out@.map_values(|i: usize| i as int) =~= out@.map_values(|i: usize| i as int) + Seq::<int>::empty());
        out
    }

    fn count_of(&self, st: JobStatus) -> (r: usize)
        requires
            self.wf(),
        ensures
            r == count_status(self.entries(), st),
            r <= self.entries().len(),
    {
        let ghost all = self.jobs@;
        let mut n: usize = 0;
        let mut i: usize = 0;
        while i < self.jobs.len()
            invariant
                i <= self.jobs.len() <= MAX_JOBS,
                all == self.jobs@,
                n == count_status(all.subrange(0, i as int), st),
                n <= i,
            decreases self.jobs.len() - i,
        {
            assert(all.subrange(0, i + 1).drop_last() =~= all.subrange(0, i as int));
            if self.jobs[i].status == st {
                n = n + 1;
            }
            i = i + 1;
        }
        assert(all.subrange(0, i as int) =~= all);
        n
    }

    /// Counts per status, the mean duration of the completed jobs and the
    /// success rate.
    pub fn statistics(&self) -> (r: JobStatistics)
        requires
            self.wf(),
        ensures
            r.total == self.entries().len(),
            r.pending == count_status(self.entries(), JobStatus::Pending),
            r.running == count_status(self.entries(), JobStatus::Running),
            r.completed == count_status(self.entries(), JobStatus::Completed),
            r.failed == count_status(self.entries(), JobStatus::Failed),
            r.cancelled == count_status(self.entries(), JobStatus::Cancelled),
            r.retrying == count_status(self.entries(), JobStatus::Retrying),
            r.paused == count_status(self.entries(), JobStatus::Paused),
            r.average_duration_ms == (if timed_count(self.entries()) == 0 {
                0
            } else {
                timed_sum(self.entries()) / timed_count(self.entries())
            }),
            r.success_rate_milli_percent == (if r.completed + r.failed == 0 {
                None::<u64>
            } else {
                Some((r.completed * 100000 / (r.completed + r.failed)) as u64)
            }),
    {
        let ghost all = self.jobs@;
        let mut sum: u128 = 0;
        let mut cnt: u64 = 0;
        let mut i: usize = 0;
        while i < self.jobs.len()
            invariant
                i <= self.jobs.len() <= MAX_JOBS,
                all == self.jobs@,
                sum == timed_sum(all.subrange(0, i as int)),
                cnt == timed_count(all.subrange(0, i as int)),
            decreases self.jobs.len() - i,
        {
            let ghost pre = all.subrange(0, i + 1);
            assert(pre.drop_last() =~= all.subrange(0, i as int));
            proof {
                lemma_timed_bounds(pre);
                assert(timed_count(pre) * (u64::MAX as nat) <= MAX_JOBS * (u64::MAX as nat)) by (nonlinear_arith)
                    requires
                        timed_count(pre) <= MAX_JOBS,
                ;
            }
            let j = &self.jobs[i];
            if j.status == JobStatus::Completed {
                match j.duration_ms {
                    Some(d) => {
                        sum = sum + d as u128;
                        cnt = cnt + 1;
                    },
                    None => {},
                }
            }
            i = i + 1;
        }
        assert(all.subrange(0, i as int) =~= all);
        proof {
            lemma_timed_bounds(all);
        }
        let average: u64 = if cnt == 0 {
            0
        } else {
            assert(sum / (cnt as u128) <= u64::MAX) by (nonlinear_arith)
                requires
                    sum <= cnt * (u64::MAX as nat),
                    cnt > 0,
            ;
            (sum / (cnt as u128)) as u64
        };
        let completed = self.count_of(JobStatus::Completed);
        let failed = self.count_of(JobStatus::Failed);
        let rate: Option<u64> = if completed + failed == 0 {
            None
        } else {
            assert(completed * 100000 / (completed + failed) <= 100000) by (nonlinear_arith)
                requires
                    completed + failed > 0,
            ;
            Some(((completed as u64) * 100000 / ((completed + failed) as u64)) as u64)
        };
        JobStatistics {
            total: self.jobs.len(),
            pending: self.count_of(JobStatus::Pending),
            running: self.count_of(JobStatus::Running),
            completed,
            failed,
            cancelled: self.count_of(JobStatus::Cancelled),
            retrying: self.count_of(JobStatus::Retrying),
            paused: self.count_of(JobStatus::Paused),
            average_duration_ms: average,
            success_rate_milli_percent: rate,
        }
    }

    /// Removes the jobs that a clear of `scope` does not keep; the others stay
    /// in order. Returns how many went.
    pub fn clear(&mut self, scope: ClearScope) -> (r: usize)
        requires
            old(self).wf(),
        ensures
            final(self).wf(),
            final(self).entries() == old(self).entries().filter(
                |j: MonitoringJob| kept_by(scope, j.status),
            ),
            r == old(self).entries().len() - final(self).entries().len(),
    {
        let ghost orig = self.jobs@;
        let n0 = self.jobs.len();
        let ghost p = |j: MonitoringJob| kept_by(scope, j.status);
        let mut i: usize = 0;
        let ghost mut k: int = 0;
        assert(orig.subrange(0, 0).filter(p) =~= Seq::empty()) by {
            reveal(Seq::filter);
        }
        assert(orig.subrange(0, orig.len() as int) =~= orig);
        while i < self.jobs.len()
            invariant
                0 <= i <= k <= orig.len(),
                p == (|j: MonitoringJob| kept_by(scope, j.status)),
                self.jobs@.len() == i + (orig.len() - k),
                self.jobs@.subrange(0, i as int) == orig.subrange(0, k).filter(p),
                self.jobs@.subrange(i as int, self.jobs@.len() as int) == orig.subrange(
                    k,
                    orig.len() as int,
                ),
            decreases self.jobs@.len() - i,
        {
            let ghost cur = self.jobs@;
            assert(cur[i as int] == orig[k]) by {
                assert(cur.subrange(i as int, cur.len() as int)[0] == orig.subrange(k, orig.len() as int)[0]);
            }
            assert(cur.subrange(i + 1, cur.len() as int) =~= orig.subrange(k + 1, orig.len() as int)) by {
                assert forall|t: int| 0 <= t < cur.len() - (i + 1) implies #[trigger] cur.subrange(i + 1, cur.len() as int)[t]
                    == orig.subrange(k + 1, orig.len() as int)[t] by {
                    assert(cur.subrange(i as int, cur.len() as int)[t + 1] == orig.subrange(k, orig.len() as int)[t + 1]);
                }
            }
            proof {
                reveal(Seq::filter);
                assert(orig.subrange(0, k + 1).drop_last() =~= orig.subrange(0, k));
            }
            if keeps(scope, self.jobs[i].status) {
                assert(self.jobs@.subrange(0, i + 1) =~= cur.subrange(0, i as int).push(orig[k]));
                i = i + 1;
            } else {
                self.jobs.remove(i);
                assert(self.jobs@.subrange(0, i as int) =~= cur.subrange(0, i as int));
            }
            proof {
                k = k + 1;
            }
            assert(self.jobs@.subrange(i as int, self.jobs@.len() as int) =~= orig.subrange(
                k,
                orig.len() as int,
            ));
        }
        assert(self.jobs@.subrange(0, i as int) =~= self.jobs@);
        assert(orig.subrange(0, k) =~= orig);
        proof {
            orig.lemma_filter_len(p);
            assert forall|a: int, b: int|
                0 <= a < self.jobs@.len() && 0 <= b < self.jobs@.len() && a != b implies self.jobs@[a].id@
                != self.jobs@[b].id@ by {
                lemma_filter_unique_ids(orig, p);
            }
        }
        n0 - self.jobs.len()
    }
}

proof fn lemma_filter_unique_ids(s: Seq<MonitoringJob>, p: spec_fn(MonitoringJob) -> bool)
    requires
        unique_ids(s),
    ensures
        unique_ids(s.filter(p)),
    decreases s.len(),
{
    reveal(Seq::filter);
    if s.len() > 0 {
        let rest = s.drop_last();
        assert(unique_ids(rest)) by {
            assert forall|i: int, j: int|
                0 <= i < rest.len() && 0 <= j < rest.len() && i != j implies rest[i].id@
                != rest[j].id@ by {
                assert(rest[i] == s[i] && rest[j] == s[j]);
            }
        }
        lemma_filter_unique_ids(rest, p);
        let f = rest.filter(p);
        assert forall|k: int| 0 <= k < f.len() implies f[k].id@ != s.last().id@ by {
            assert(f.contains(f[k]));
            rest.lemma_filter_contains_rev(p, f[k]);
            let m = choose|m: int| 0 <= m < rest.len() && rest[m] == f[k];
            assert(s[m] == f[k]);
        }
    }
}

/// Every transition of the ledger moves a job up in rank: `start` from
/// `Pending` to `Running`, `complete` and `fail` from `Running` to a final
/// state, and `cancel` from `Pending` or `Running` to `Cancelled`; a final
/// state is never left.
pub proof fn lemma_transitions_advance(st: JobStatus)
    ensures
        st == JobStatus::Pending ==> rank(JobStatus::Running) > rank(st),
        st == JobStatus::Running ==> rank(JobStatus::Completed) > rank(st) && rank(
            JobStatus::Failed,
        ) > rank(st),
        cancellable(st) ==> rank(JobStatus::Cancelled) > rank(st),
        rank(st) == 2 ==> st != JobStatus::Pending && st != JobStatus::Running && !cancellable(st),
{
}

/// Milliseconds from `started` to `now`; 0 without a start or if the clock went back.
pub open spec fn elapsed(started: Option<u64>, now: u64) -> u64 {
    match started {
        Some(t) => if now >= t {
            (now - t) as u64
        } else {
            0
        },
        None => 0,
    }
}

fn elapsed_ms(started: Option<u64>, now: u64) -> (r: u64)
    ensures
        r == elapsed(started, now),
{
    match started {
        Some(t) => if now >= t {
            now - t
        } else {
            0
        },
        None => 0,
    }
}

/// Whether a job in this state can be cancelled.
pub open spec fn cancellable(s: JobStatus) -> bool {
    s == JobStatus::Pending || s == JobStatus::Running
}

} // verus!
