use agentless_monitor::jobs::{ClearScope, JobKind, JobLedger, JobStatus, MonitoringJob, MAX_JOBS};
use agentless_monitor::probe::MetricFamily;

fn job(id: &str, server: &str, now: u64) -> MonitoringJob {
    MonitoringJob {
        id: id.to_string(),
        server_id: server.to_string(),
        server_name: server.to_string(),
        kind: JobKind::Scheduled,
        status: JobStatus::Pending,
        created_at: now,
        started_at: None,
        completed_at: None,
        duration_ms: None,
        error: None,
        metrics_collected: Vec::new(),
        retry_count: 0,
        priority: 0,
    }
}

#[test]
fn ledger_evicts_oldest_beyond_capacity() {
    let mut l = JobLedger::new();
    for i in 0..(MAX_JOBS + 1) {
        assert!(l.add_job(job(&format!("job-{}", i), "s", i as u64)));
    }
    assert_eq!(l.len(), 200);
    assert_eq!(l.job_at(0).id, "job-1");
    assert_eq!(l.job_at(199).id, "job-200");
}

#[test]
fn duplicate_job_id_is_refused() {
    let mut l = JobLedger::new();
    assert!(l.add_job(job("a", "s", 1)));
    assert!(!l.add_job(job("a", "s", 2)));
    assert_eq!(l.len(), 1);
}

#[test]
fn job_lifecycle_to_completion() {
    let mut l = JobLedger::new();
    l.add_job(job("a", "s", 1));
    assert!(!l.complete("a", 5, vec![]));
    assert!(l.start("a", 1000));
    assert!(!l.start("a", 1001));
    assert!(l.complete("a", 1250, vec![MetricFamily::Cpu, MetricFamily::Memory]));
    let j = l.job_at(0);
    assert_eq!(j.status, JobStatus::Completed);
    assert_eq!(j.started_at, Some(1000));
    assert_eq!(j.completed_at, Some(1250));
    assert_eq!(j.duration_ms, Some(250));
    assert_eq!(j.metrics_collected, vec![MetricFamily::Cpu, MetricFamily::Memory]);
}

#[test]
fn job_lifecycle_to_failure() {
    let mut l = JobLedger::new();
    l.add_job(job("a", "s", 1));
    l.start("a", 10);
    assert!(l.fail("a", 40, "boom".to_string()));
    let j = l.job_at(0);
    assert_eq!(j.status, JobStatus::Failed);
    assert_eq!(j.error.as_deref(), Some("boom"));
    assert_eq!(j.duration_ms, Some(30));
    assert!(!l.cancel("a", 50));
}

#[test]
fn cancel_only_from_pending_or_running() {
    let mut l = JobLedger::new();
    l.add_job(job("p", "s", 1));
    l.add_job(job("r", "s", 1));
    l.add_job(job("c", "s", 1));
    l.start("r", 2);
    l.start("c", 2);
    l.complete("c", 3, vec![]);
    assert!(l.cancel("p", 7));
    assert!(l.cancel("r", 8));
    assert!(!l.cancel("c", 9));
    assert!(!l.cancel("missing", 9));
    assert_eq!(l.job_at(0).status, JobStatus::Cancelled);
    assert_eq!(l.job_at(0).completed_at, Some(7));
    assert_eq!(l.job_at(1).completed_at, Some(8));
    assert_eq!(l.job_at(2).status, JobStatus::Completed);
    assert_eq!(l.job_at(2).completed_at, Some(3));
}

#[test]
fn list_newest_first_with_filters() {
    let mut l = JobLedger::new();
    l.add_job(job("a", "x", 1));
    l.add_job(job("b", "y", 2));
    l.add_job(job("c", "x", 3));
    l.start("c", 4);
    assert_eq!(l.list_jobs(10, None, None), vec![2, 1, 0]);
    assert_eq!(l.list_jobs(2, None, None), vec![2, 1]);
    assert_eq!(l.list_jobs(10, None, Some("x")), vec![2, 0]);
    assert_eq!(l.list_jobs(10, Some(JobStatus::Pending), Some("x")), vec![0]);
    assert!(l.list_jobs(0, None, None).is_empty());
}

#[test]
fn statistics_count_and_average() {
    let mut l = JobLedger::new();
    for (id, d) in [("a", 100u64), ("b", 300u64)] {
        l.add_job(job(id, "s", 0));
        l.start(id, 1000);
        l.complete(id, 1000 + d, vec![]);
    }
    l.add_job(job("f", "s", 0));
    l.start("f", 0);
    l.fail("f", 5, "e".to_string());
    l.add_job(job("p", "s", 0));
    let st = l.statistics();
    assert_eq!(st.total, 4);
    assert_eq!((st.completed, st.failed, st.pending, st.running), (2, 1, 1, 0));
    assert_eq!(st.average_duration_ms, 200);
    assert_eq!(st.success_rate_milli_percent, Some(66_666));
    assert_eq!(JobLedger::new().statistics().success_rate_milli_percent, None);
}

#[test]
fn clear_scopes() {
    let mut l = JobLedger::new();
    for id in ["done", "gone", "bad", "run", "wait"] {
        l.add_job(job(id, "s", 0));
    }
    l.start("done", 1);
    l.complete("done", 2, vec![]);
    l.cancel("gone", 2);
    l.start("bad", 1);
    l.fail("bad", 2, "e".to_string());
    l.start("run", 1);
    assert_eq!(l.clear(ClearScope::Finished), 2);
    assert_eq!(l.len(), 3);
    assert_eq!(l.clear(ClearScope::Failed), 1);
    assert_eq!(l.clear(ClearScope::AllButRunning), 1);
    assert_eq!(l.len(), 1);
    assert_eq!(l.job_at(0).id, "run");
}

#[test]
fn new_jobs_are_pending_with_distinct_ids() {
    let a = agentless_monitor::jobs::new_job("s", "Server", JobKind::Manual, 42);
    let b = agentless_monitor::jobs::new_job("s", "Server", JobKind::Manual, 42);
    assert_eq!(a.status, JobStatus::Pending);
    assert_eq!(a.created_at, 42);
    assert_eq!(a.id.len(), 36);
    assert_ne!(a.id, b.id);
    let mut l = JobLedger::new();
    assert!(l.add_job(a));
    assert!(l.add_job(b));
}

#[test]
fn create_job_always_records_a_pending_job() {
    let mut l = JobLedger::new();
    for i in 0..(MAX_JOBS + 5) {
        let id = l.create_job("s", "Server", JobKind::Scheduled, i as u64);
        assert!(id.len() >= 36);
        assert_eq!(l.job_at(l.len() - 1).id, id);
        assert_eq!(l.job_at(l.len() - 1).status, JobStatus::Pending);
    }
    assert_eq!(l.len(), MAX_JOBS);
    assert_eq!(l.job_at(0).created_at, 5);
}
