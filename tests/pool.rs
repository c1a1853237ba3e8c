use agentless_monitor::pool::{Admission, ConnectionPool, PoolError, DEFAULT_MAX_CONNECTIONS};

fn create(pool: &mut ConnectionPool, server: &str, id: &str, exited: &Vec<String>) -> Result<Admission, PoolError> {
    pool.acquire(server, "user", "host", None, exited, id.to_string(), 100).admission
}

#[test]
fn first_acquire_registers_a_new_connection() {
    let mut pool = ConnectionPool::new(2);
    let r = pool.acquire("a", "root", "10.0.0.1", None, &vec![], "c1".to_string(), 100);
    assert!(matches!(r.admission, Ok(Admission::Create(ref id)) if id == "c1"));
    assert!(r.evicted.is_empty());
    assert_eq!(pool.pool_size(), 1);
    assert_eq!(pool.get_connection_id("a"), Some("c1".to_string()));
    assert_eq!(pool.get_connection_hosts("c1"), Some(("root".to_string(), "10.0.0.1".to_string())));
}

#[test]
fn verified_connection_is_reused() {
    let mut pool = ConnectionPool::new(2);
    create(&mut pool, "a", "c1", &vec![]).unwrap();
    let r = pool.acquire("a", "user", "host", Some("c1".to_string()), &vec![], "c2".to_string(), 200);
    assert!(matches!(r.admission, Ok(Admission::Reuse(ref id)) if id == "c1"));
    assert!(r.evicted.is_empty());
    assert_eq!(pool.pool_size(), 1);
}

#[test]
fn unverified_connection_is_replaced_not_duplicated() {
    let mut pool = ConnectionPool::new(4);
    create(&mut pool, "a", "c1", &vec![]).unwrap();
    let r = pool.acquire("a", "user", "host", None, &vec![], "c2".to_string(), 200);
    assert!(matches!(r.admission, Ok(Admission::Create(ref id)) if id == "c2"));
    assert_eq!(r.evicted, vec!["c1".to_string()]);
    assert_eq!(pool.pool_size(), 1);
    assert_eq!(pool.get_connection_id("a"), Some("c2".to_string()));
    let r = pool.acquire("a", "user", "host", Some("stale".to_string()), &vec![], "c3".to_string(), 300);
    assert!(matches!(r.admission, Ok(Admission::Create(_))));
    assert_eq!(pool.pool_size(), 1);
}

#[test]
fn full_pool_of_dead_connections_is_swept() {
    let mut pool = ConnectionPool::new(2);
    create(&mut pool, "a", "c1", &vec![]).unwrap();
    create(&mut pool, "b", "c2", &vec![]).unwrap();
    let exited = vec!["c1".to_string(), "c2".to_string()];
    let r = pool.acquire("c", "user", "host", None, &exited, "c3".to_string(), 300);
    assert!(matches!(r.admission, Ok(Admission::Create(ref id)) if id == "c3"));
    assert_eq!(r.evicted, exited);
    assert_eq!(pool.pool_size(), 1);
    assert_eq!(pool.get_connection_id("a"), None);
}

#[test]
fn full_pool_of_live_connections_is_exhausted() {
    let mut pool = ConnectionPool::new(2);
    create(&mut pool, "a", "c1", &vec![]).unwrap();
    create(&mut pool, "b", "c2", &vec![]).unwrap();
    let r = pool.acquire("c", "user", "host", None, &vec![], "c3".to_string(), 300);
    assert_eq!(r.admission.unwrap_err(), PoolError::PoolExhausted);
    assert!(r.evicted.is_empty());
    assert_eq!(pool.pool_size(), 2);
}

#[test]
fn zero_capacity_pool_admits_nothing() {
    let mut pool = ConnectionPool::new(0);
    assert!(create(&mut pool, "a", "c1", &vec![]).is_err());
}

#[test]
fn evict_is_idempotent() {
    let mut pool = ConnectionPool::with_default_capacity();
    assert_eq!(pool.max_connections(), DEFAULT_MAX_CONNECTIONS);
    create(&mut pool, "a", "c1", &vec![]).unwrap();
    assert_eq!(pool.evict("c1"), vec!["c1".to_string()]);
    assert!(pool.evict("c1").is_empty());
    assert_eq!(pool.pool_size(), 0);
}

#[test]
fn sweep_removes_only_exited() {
    let mut pool = ConnectionPool::new(5);
    create(&mut pool, "a", "c1", &vec![]).unwrap();
    create(&mut pool, "b", "c2", &vec![]).unwrap();
    assert_eq!(pool.sweep(&vec!["c2".to_string(), "zz".to_string()]), vec!["c2".to_string()]);
    assert_eq!(pool.pool_size(), 1);
    assert_eq!(pool.get_connection_id("a"), Some("c1".to_string()));
}

#[test]
fn touch_keeps_the_registration() {
    let mut pool = ConnectionPool::new(5);
    create(&mut pool, "a", "c1", &vec![]).unwrap();
    pool.touch("a", 999);
    assert_eq!(pool.get_connection_id("a"), Some("c1".to_string()));
    assert_eq!(pool.pool_size(), 1);
}

#[test]
fn acquire_connection_draws_a_fresh_id() {
    let mut pool = ConnectionPool::new(3);
    let r = pool.acquire_connection("a", "u", "h", None, &vec![], 5);
    let id = match r.admission {
        Ok(Admission::Create(id)) => id,
        _ => panic!("expected a new connection"),
    };
    assert_eq!(id.len(), 36);
    assert_eq!(pool.get_connection_id("a"), Some(id.clone()));
    let again = pool.acquire_connection("a", "u", "h", Some(id.clone()), &vec![], 6);
    assert!(matches!(again.admission, Ok(Admission::Reuse(ref x)) if *x == id));
}

#[test]
fn registered_id_is_refused_for_a_new_connection() {
    let mut pool = ConnectionPool::new(4);
    create(&mut pool, "a", "c1", &vec![]).unwrap();
    let r = pool.acquire("b", "u", "h", None, &vec![], "c1".to_string(), 9);
    assert_eq!(r.admission.unwrap_err(), PoolError::IdInUse);
    assert!(r.evicted.is_empty());
    assert_eq!(pool.pool_size(), 1);
    assert!(pool.has_connection("c1"));
    let r = pool.acquire("a", "u", "h", None, &vec![], "c1".to_string(), 9);
    assert_eq!(r.admission.unwrap_err(), PoolError::IdInUse);
    assert_eq!(pool.get_connection_id("a"), Some("c1".to_string()));
}

#[test]
fn acquire_connection_never_reports_a_taken_id() {
    let mut pool = ConnectionPool::new(3);
    for s in ["a", "b", "c"] {
        let r = pool.acquire_connection(s, "u", "h", None, &vec![], 1);
        assert!(matches!(r.admission, Ok(Admission::Create(_))));
    }
    let r = pool.acquire_connection("d", "u", "h", None, &vec![], 2);
    assert_eq!(r.admission.unwrap_err(), PoolError::PoolExhausted);
}
