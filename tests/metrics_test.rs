use rs_concurrency::metrics::atomic_metrics::AtomicMetrics;
use rs_concurrency::metrics::concurrent_metrics::{lowered_count, raised_count, ConcurrentMetrics};
use rs_concurrency::metrics::{CounterTable, Metrics, MetricsError};

fn sorted(mut v: Vec<(String, i64)>) -> Vec<(String, i64)> {
    v.sort();
    v
}

#[test]
fn counter_table_inc_and_dec() {
    let mut t = CounterTable::new();
    assert_eq!(t.inc("a".to_string()), Ok(()));
    assert_eq!(t.inc("a".to_string()), Ok(()));
    assert_eq!(t.inc("b".to_string()), Ok(()));
    assert_eq!(t.dec("b".to_string()), Ok(()));
    assert_eq!(t.get(&"a".to_string()), Some(2));
    assert_eq!(t.get(&"b".to_string()), Some(0));
    assert_eq!(t.get(&"c".to_string()), None);
}

#[test]
fn counter_table_dec_of_new_key_ends_at_zero() {
    let mut t = CounterTable::new();
    assert_eq!(t.dec("fresh".to_string()), Ok(()));
    assert_eq!(t.get(&"fresh".to_string()), Some(0));
    assert_eq!(t.dec("fresh".to_string()), Ok(()));
    assert_eq!(t.get(&"fresh".to_string()), Some(-1));
}

#[test]
fn counter_table_snapshot_lists_each_name_once() {
    let mut t = CounterTable::new();
    t.inc("x".to_string()).unwrap();
    t.inc("y".to_string()).unwrap();
    t.inc("x".to_string()).unwrap();
    assert_eq!(t.snapshot(), vec![("x".to_string(), 2), ("y".to_string(), 1)]);
}

#[test]
fn shared_metrics_clones_share_counters() {
    let m = Metrics::new();
    let other = m.clone();
    m.inc("req".to_string()).unwrap();
    other.inc("req".to_string()).unwrap();
    other.dec("gone".to_string()).unwrap();
    assert_eq!(
        sorted(m.snapshot()),
        vec![("gone".to_string(), 0), ("req".to_string(), 2)]
    );
}

#[test]
fn atomic_metrics_counts_known_names_only() {
    let m = AtomicMetrics::new(&["call.thread.worker.0", "req.page.1"]);
    assert_eq!(m.inc("req.page.1"), Ok(()));
    let shared = m.clone();
    assert_eq!(shared.inc("call.thread.worker.0"), Ok(()));
    assert_eq!(m.inc("req.page.9"), Err(MetricsError::KeyNotFound));
}

fn sorted_lines(text: &str) -> Vec<String> {
    let mut lines: Vec<String> = text.lines().map(|l| l.to_string()).collect();
    lines.sort();
    lines
}

#[test]
fn counter_table_display_lists_lines() {
    let mut t = CounterTable::new();
    t.inc("a".to_string()).unwrap();
    t.inc("a".to_string()).unwrap();
    t.dec("b".to_string()).unwrap();
    t.dec("b".to_string()).unwrap();
    assert_eq!(t.to_display_string(), "a: 2\nb: -1\n");
    assert_eq!(CounterTable::new().to_display_string(), "");
}

#[test]
fn shared_metrics_display() {
    let m = Metrics::new();
    m.inc("call.thread.worker.0".to_string()).unwrap();
    m.inc("req.page.7".to_string()).unwrap();
    m.inc("req.page.7".to_string()).unwrap();
    assert_eq!(
        sorted_lines(&m.to_display_string()),
        vec!["call.thread.worker.0: 1".to_string(), "req.page.7: 2".to_string()]
    );
}

#[test]
fn atomic_metrics_display_after_increments() {
    let m = AtomicMetrics::new(&["call.thread.worker.0", "req.page.1", "req.page.2"]);
    m.inc("req.page.1").unwrap();
    m.clone().inc("req.page.1").unwrap();
    m.inc("call.thread.worker.0").unwrap();
    assert_eq!(
        m.to_display_string(),
        "call.thread.worker.0: 1\nreq.page.1: 2\nreq.page.2: 0\n"
    );
}

#[test]
fn concurrent_metrics_inc_and_dec() {
    let m = ConcurrentMetrics::new();
    let shared = m.clone();
    assert_eq!(m.inc("x".to_string()), Ok(()));
    assert_eq!(shared.inc("x".to_string()), Ok(()));
    assert_eq!(m.dec("y".to_string()), Ok(()));
    assert_eq!(
        sorted_lines(&m.to_display_string()),
        vec!["x: 2".to_string(), "y: -1".to_string()]
    );
}

#[test]
fn atomic_metrics_repeated_names_share_one_counter() {
    let m = AtomicMetrics::new(&["a", "b", "a"]);
    m.inc("a").unwrap();
    m.inc("a").unwrap();
    assert_eq!(m.to_display_string(), "a: 2\nb: 0\n");
}

#[test]
fn raised_and_lowered_counts() {
    assert_eq!(raised_count(0), Ok(1));
    assert_eq!(raised_count(-1), Ok(0));
    assert_eq!(raised_count(i64::MAX), Err(MetricsError::CounterOverflow));
    assert_eq!(lowered_count(0), Ok(-1));
    assert_eq!(lowered_count(5), Ok(4));
    assert_eq!(lowered_count(i64::MIN), Err(MetricsError::CounterOverflow));
}
