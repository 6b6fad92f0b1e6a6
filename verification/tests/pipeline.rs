use qpackt::fingerprint::VisitorHash;
use qpackt::pipeline::{merge_requests, upsert_visits, Batcher, RequestLog, Visit, BATCH_MAX};
use qpackt::version::VersionName;

fn log(time: u64, visitor: u64, version: &str) -> RequestLog {
    RequestLog {
        time,
        visitor: VisitorHash(visitor),
        version: VersionName::new(version.to_string()),
        uri: "/".to_string(),
    }
}

#[test]
fn visit_aggregation() {
    // Three logs of one visitor at t, t+5 and t+10 roll up into a single
    // visit counting three requests from t to t+10.
    let t: u64 = 1000;
    let logs = vec![log(t, 7, "v2"), log(t + 5, 7, "v2"), log(t + 10, 7, "v2")];
    let visits = merge_requests(&logs);
    assert_eq!(visits.len(), 1);
    assert_eq!(visits[0].request_count, 3);
    assert_eq!(visits[0].first_request_time, t);
    assert_eq!(visits[0].last_request_time, t + 10);
    assert_eq!(visits[0].visitor, VisitorHash(7));
    assert!(visits[0].version.matches("v2"));
}

#[test]
fn distinct_visitors_make_distinct_rows() {
    // Seven logs from three distinct visitors: three rows whose counts
    // add up to seven, each spanning its own time range.
    let logs = vec![
        log(10, 1, "v1"),
        log(11, 2, "v1"),
        log(12, 1, "v1"),
        log(13, 3, "v2"),
        log(14, 2, "v1"),
        log(15, 1, "v1"),
        log(16, 3, "v2"),
    ];
    let visits = merge_requests(&logs);
    assert_eq!(visits.len(), 3);
    let total: u32 = visits.iter().map(|v| v.request_count).sum();
    assert_eq!(total, 7);
    for v in &visits {
        assert!(v.last_request_time >= v.first_request_time);
    }
}

#[test]
fn merge_takes_earliest_and_latest_times() {
    let logs = vec![log(50, 1, "v1"), log(20, 1, "v1"), log(35, 1, "v1")];
    let visits = merge_requests(&logs);
    assert_eq!(visits.len(), 1);
    assert_eq!(visits[0].first_request_time, 20);
    assert_eq!(visits[0].last_request_time, 50);
}

#[test]
fn upsert_into_empty_table_writes_batch_through() {
    let logs = vec![log(1, 1, "v1"), log(2, 2, "v1"), log(3, 1, "v1")];
    let incoming = merge_requests(&logs);
    let table: Vec<Visit> = Vec::new();
    let after = upsert_visits(&table, &incoming);
    assert_eq!(after.len(), 2);
    let total: u32 = after.iter().map(|v| v.request_count).sum();
    assert_eq!(total, 3);
}

#[test]
fn upsert_accumulates_counts_and_overwrites_last_time() {
    let first_batch = merge_requests(&vec![log(1, 1, "v1"), log(2, 1, "v1")]);
    let table = upsert_visits(&Vec::new(), &first_batch);
    let second_batch = merge_requests(&vec![log(9, 1, "v1"), log(4, 2, "v2")]);
    let after = upsert_visits(&table, &second_batch);
    assert_eq!(after.len(), 2);
    // The visitor seen before keeps its first time, accumulates its
    // count, and takes the new last time.
    let row = after.iter().find(|v| v.visitor == VisitorHash(1)).unwrap();
    assert_eq!(row.request_count, 3);
    assert_eq!(row.first_request_time, 1);
    assert_eq!(row.last_request_time, 9);
    let fresh = after.iter().find(|v| v.visitor == VisitorHash(2)).unwrap();
    assert_eq!(fresh.request_count, 1);
}

#[test]
fn batcher_reports_full_at_bound() {
    let mut batcher: Batcher<u64> = Batcher::new();
    for i in 0..BATCH_MAX - 1 {
        assert!(!batcher.push(i as u64));
    }
    assert!(batcher.push(0));
    assert_eq!(batcher.len(), BATCH_MAX);
    let batch = batcher.take();
    assert_eq!(batch.len(), BATCH_MAX);
    assert_eq!(batcher.len(), 0);
}
