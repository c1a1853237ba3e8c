//! The per-server history of snapshots, bounded in length.

use crate::models::MonitoringData;
use crate::text::same_text;
use vstd::prelude::*;

verus! {

/// How many snapshots are kept per server; the oldest go first.
pub const HISTORY_LIMIT: usize = 1000;

/// The snapshots of one server, oldest first.
pub struct ServerHistory {
    pub server_id: String,
    pub data: Vec<MonitoringData>,
}

/// The snapshots kept for `id`.
pub open spec fn series_of(s: Seq<ServerHistory>, id: Seq<char>) -> Seq<MonitoringData> {
    if exists|i: int| 0 <= i < s.len() && s[i].server_id@ == id {
        s[choose|i: int| 0 <= i < s.len() && s[i].server_id@ == id].data@
    } else {
        Seq::empty()
    }
}

/// The last `HISTORY_LIMIT` items of `s`.
pub open spec fn capped(s: Seq<MonitoringData>) -> Seq<MonitoringData> {
    if s.len() > HISTORY_LIMIT {
        s.subrange(s.len() - HISTORY_LIMIT, s.len() as int)
    } else {
        s
    }
}

proof fn lemma_series_push(s: Seq<ServerHistory>, h: ServerHistory)
    requires
        forall|k: int| 0 <= k < s.len() ==> s[k].server_id@ != h.server_id@,
        forall|a: int, b: int|
            0 <= a < s.len() && 0 <= b < s.len() && a != b ==> s[a].server_id@ != s[b].server_id@,
    ensures
        series_of(s.push(h), h.server_id@) == h.data@,
        series_of(s, h.server_id@) == Seq::<MonitoringData>::empty(),
        forall|id: Seq<char>| id != h.server_id@ ==> series_of(s.push(h), id) == series_of(s, id),
{
    let t = s.push(h);
    assert(t[s.len() as int] == h);
    let k2 = choose|k: int| 0 <= k < t.len() && t[k].server_id@ == h.server_id@;
    if k2 != s.len() as int {
        assert(t[k2] == s[k2]);
    }
    assert forall|id: Seq<char>| id != h.server_id@ implies series_of(t, id) == series_of(s, id) by {
        if exists|k: int| 0 <= k < s.len() && s[k].server_id@ == id {
            let k = choose|k: int| 0 <= k < s.len() && s[k].server_id@ == id;
            assert(t[k] == s[k]);
            let j = choose|j: int| 0 <= j < t.len() && t[j].server_id@ == id;
            assert(j < s.len());
            assert(t[j] == s[j]);
            if j != k {
                assert(s[j].server_id@ != s[k].server_id@);
            }
        } else {
            assert forall|k: int| 0 <= k < t.len() implies t[k].server_id@ != id by {
                if k < s.len() {
                    assert(t[k] == s[k]);
                }
            }
        }
    }
}

/// The history of every server.
pub struct MetricsHistory {
    series: Vec<ServerHistory>,
}

impl MetricsHistory {
    pub closed spec fn entries(&self) -> Seq<ServerHistory> {
        self.series@
    }

    /// The snapshots kept for a server, oldest first.
    pub open spec fn of(&self, id: Seq<char>) -> Seq<MonitoringData> {
        series_of(self.entries(), id)
    }

    /// One series per server, none longer than `HISTORY_LIMIT`.
    pub open spec fn wf(&self) -> bool {
        &&& forall|i: int, j: int|
            0 <= i < self.entries().len() && 0 <= j < self.entries().len() && i != j
                ==> self.entries()[i].server_id@ != self.entries()[j].server_id@
        &&& forall|i: int|
            0 <= i < self.entries().len() ==> (#[trigger] self.entries()[i]).data@.len()
                <= HISTORY_LIMIT
    }

    pub fn new() -> (r: Self)
        ensures
            r.wf(),
            forall|id: Seq<char>| r.of(id).len() == 0,
    {
        MetricsHistory { series: Vec::new() }
    }

    fn find(&self, id: &str) -> (r: Option<usize>)
        requires
            self.wf(),
        ensures
            r matches Some(i) ==> i < self.entries().len() && self.entries()[i as int].server_id@
                == id@ && self.of(id@) == self.entries()[i as int].data@,
            r is None ==> forall|i: int|
                0 <= i < self.entries().len() ==> self.entries()[i].server_id@ != id@,
    {
        let mut i: usize = 0;
        while i < self.series.len()
            invariant
                i <= self.series.len(),
                self.wf(),
                forall|j: int| 0 <= j < i ==> self.series@[j].server_id@ != id@,
            decreases self.series.len() - i,
        {
            if same_text(self.series[i].server_id.as_str(), id) {
                let ghost s = self.entries();
                proof {
                    let k = choose|k: int| 0 <= k < s.len() && s[k].server_id@ == id@;
                    if k != i as int {
                        assert(s[k].server_id@ != s[i as int].server_id@);
                    }
                }
                return Some(i);
            }
            i = i + 1;
        }
        None
    }

    /// Appends a snapshot to a server's history, dropping its oldest beyond
    /// `HISTORY_LIMIT`; other servers' histories stay as they are.
    pub fn add_monitoring_data(&mut self, server_id: String, data: MonitoringData)
        requires
            old(self).wf(),
        ensures
            final(self).wf(),
            final(self).of(server_id@) == capped(old(self).of(server_id@).push(data)),
            forall|id: Seq<char>| id != server_id@ ==> final(self).of(id) == old(self).of(id),
    {
        let ghost s = self.series@;
        match self.find(server_id.as_str()) {
            Some(i) => {
                let mut h = self.series.remove(i);
                let ghost d0 = h.data@;
                h.data.push(data);
                if h.data.len() > HISTORY_LIMIT {
                    h.data.remove(0);
                    assert(h.data@ =~= capped(d0.push(data)));
                } else {
                    assert(h.data@ =~= capped(d0.push(data)));
                }
                self.series.insert(i, h);
                let ghost t = self.series@;
                assert(t =~= s.update(i as int, h));
                assert forall|id: Seq<char>| id != server_id@ implies series_of(t, id) == series_of(s, id) by {
                    if exists|k: int| 0 <= k < s.len() && s[k].server_id@ == id {
                        let k = choose|k: int| 0 <= k < s.len() && s[k].server_id@ == id;
                        assert(t[k] == s[k]);
                        let k2 = choose|k: int| 0 <= k < t.len() && t[k].server_id@ == id;
                        if k2 != k {
                            assert(t[k2] == s[k2]);
                        }
                    } else {
                        assert forall|k: int| 0 <= k < t.len() implies t[k].server_id@ != id by {
                            if k != i as int {
                                assert(t[k] == s[k]);
                            }
                        }
                    }
                }
                assert(series_of(t, server_id@) == h.data@) by {
                    assert(t[i as int].server_id@ == server_id@);
                    let k2 = choose|k: int| 0 <= k < t.len() && t[k].server_id@ == server_id@;
                    if k2 != i as int {
                        assert(t[k2] == s[k2]);
                    }
                }
                assert forall|a: int, b: int|
                    0 <= a < t.len() && 0 <= b < t.len() && a != b implies t[a].server_id@
                    != t[b].server_id@ by {
                    assert(t[a].server_id == s[a].server_id && t[b].server_id == s[b].server_id);
                }
                assert forall|a: int| 0 <= a < t.len() implies (#[trigger] t[a]).data@.len() <= HISTORY_LIMIT by {
                    if a != i as int {
                        assert(t[a] == s[a]);
                    }
                }
            },
            None => {
                assert(s == self.entries());
                assert(forall|k: int| 0 <= k < s.len() ==> s[k].server_id@ != server_id@);
                let mut v: Vec<MonitoringData> = Vec::new();
                v.push(data);
                let h = ServerHistory { server_id, data: v };
                proof {
                    lemma_series_push(s, h);
                }
                self.series.push(h);
                assert(v@ =~= capped(Seq::<MonitoringData>::empty().push(data)));
            },
        }
    }

    /// The newest snapshot of a server.
    pub fn get_latest_monitoring_data(&self, server_id: &str) -> (r: Option<&MonitoringData>)
        requires
            self.wf(),
        ensures
            self.of(server_id@).len() == 0 ==> r is None,
            self.of(server_id@).len() > 0 ==> r == Some(&self.of(server_id@).last()),
    {
        match self.find(server_id) {
            Some(i) => {
                let d = &self.series[i].data;
                if d.len() == 0 {
                    None
                } else {
                    Some(&d[d.len() - 1])
                }
            },
            None => None,
        }
    }

    /// Up to `limit` snapshots of a server, newest first.
    pub fn get_historical_data(&self, server_id: &str, limit: usize) -> (r: Vec<&MonitoringData>)
        requires
            self.wf(),
        ensures
            r@.len() == (if limit < self.of(server_id@).len() {
                limit as int
            } else {
                self.of(server_id@).len() as int
            }),
            forall|k: int|
                0 <= k < r@.len() ==> *#[trigger] r@[k] == self.of(server_id@)[self.of(server_id@).len() - 1 - k],
    {
        let mut out: Vec<&MonitoringData> = Vec::new();
        match self.find(server_id) {
            Some(i) => {
                let d = &self.series[i].data;
                let mut k: usize = 0;
                while k < limit && k < d.len()
                    invariant
                        k <= d.len(),
                        k <= limit,
                        out@.len() == k,
                        forall|j: int| 0 <= j < k ==> *#[trigger] out@[j] == d@[d.len() - 1 - j],
                    decreases d.len() - k,
                {
                    out.push(&d[d.len() - 1 - k]);
                    k = k + 1;
                }
            },
            None => {
                assert(self.of(server_id@) =~= Seq::<MonitoringData>::empty());
            },
        }
        out
    }
}

} // verus!
