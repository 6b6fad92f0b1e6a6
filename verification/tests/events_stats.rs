use qpackt::events::{build_event, csv_header, csv_line, saved_event_from_row, visit_from_row, EventData};
use qpackt::fingerprint::{create_from_init, VisitorHash};
use qpackt::pipeline::Visit;
use qpackt::stats::{accumulate_version_totals, count_events_by_version};
use qpackt::version::VersionName;

fn event(name: &str, version: &str) -> EventData {
    EventData {
        time: 9,
        visitor: VisitorHash(1),
        version: version.to_string(),
        name: name.to_string(),
        params: String::new(),
        path: "/".to_string(),
        payload: "{}".to_string(),
    }
}

fn visit(version: &str, count: u32, first: u64, last: u64) -> Visit {
    Visit {
        first_request_time: first,
        last_request_time: last,
        request_count: count,
        visitor: VisitorHash(first),
        version: VersionName::new(version.to_string()),
    }
}

#[test]
fn event_keeps_provided_visitor() {
    let e = build_event(
        "click".to_string(),
        "v1".to_string(),
        String::new(),
        "/".to_string(),
        "{}".to_string(),
        Some(VisitorHash(5)),
        &vec![127, 0, 0, 1],
        &vec![],
        42,
        1000,
    );
    assert_eq!(e.visitor, VisitorHash(5));
    assert_eq!(e.time, 1000);
}

#[test]
fn event_computes_missing_visitor() {
    let ip = vec![10, 0, 0, 1];
    let ua = vec![77, 78];
    let e = build_event(
        "click".to_string(),
        "v1".to_string(),
        String::new(),
        "/".to_string(),
        "{}".to_string(),
        None,
        &ip,
        &ua,
        42,
        1000,
    );
    assert_eq!(e.visitor, create_from_init(&ip, &ua, 42));
}

#[test]
fn event_row_decodes_or_names_the_missing_column() {
    let ok = saved_event_from_row(
        Some(3),
        Some(100),
        Some(-5),
        Some("v1".to_string()),
        Some("click".to_string()),
        Some(String::new()),
        Some("/".to_string()),
        Some("{}".to_string()),
    )
    .unwrap();
    assert_eq!(ok.id, 3);
    assert_eq!(ok.event.time, 100);
    assert_eq!(ok.event.visitor, VisitorHash((-5i64) as u64));
    let missing = saved_event_from_row(None, Some(1), Some(1), None, None, None, None, None);
    assert!(missing.is_err());
}

#[test]
fn visit_row_decodes() {
    let v = visit_from_row(Some(1), Some(11), Some(3), Some(7), Some("v2".to_string())).unwrap();
    assert_eq!(v.first_request_time, 1);
    assert_eq!(v.last_request_time, 11);
    assert_eq!(v.request_count, 3);
    assert_eq!(v.visitor, VisitorHash(7));
    assert!(v.version.matches("v2"));
    assert!(visit_from_row(Some(1), None, Some(3), Some(7), None).is_err());
}

#[test]
fn csv_lines_are_exact() {
    assert_eq!(csv_header(), "id,time,event,version,visitor,params,path,payload\r\n");
    let e = event("click", "v1");
    let line = csv_line(3, "2024-01-02 03:04", &e);
    assert_eq!(line, "3,2024-01-02 03:04,click,v1,1,,/,{}\r\n");
}

#[test]
fn totals_group_visits_by_version() {
    let visits = vec![
        visit("v1", 2, 100, 110),
        visit("v2", 1, 100, 102),
        visit("v1", 3, 200, 230),
    ];
    let totals = accumulate_version_totals(&visits);
    assert_eq!(totals.len(), 2);
    let v1 = totals.iter().find(|t| t.name.matches("v1")).unwrap();
    assert_eq!(v1.visit_count, 2);
    assert_eq!(v1.request_sum, 5);
    assert_eq!(v1.duration_sum, 40);
    assert_eq!(v1.bounce_count, 0);
    let v2 = totals.iter().find(|t| t.name.matches("v2")).unwrap();
    assert_eq!(v2.visit_count, 1);
    assert_eq!(v2.bounce_count, 1);
}

#[test]
fn event_counts_group_by_name_and_version() {
    let events = vec![
        qpackt::events::SavedEventData { id: 1, event: event("click", "v1") },
        qpackt::events::SavedEventData { id: 2, event: event("click", "v1") },
        qpackt::events::SavedEventData { id: 3, event: event("click", "v2") },
        qpackt::events::SavedEventData { id: 4, event: event("buy", "v1") },
    ];
    let counts = count_events_by_version(&events);
    assert_eq!(counts.len(), 3);
    let c = counts
        .iter()
        .find(|c| c.name == "click" && c.version == "v1")
        .unwrap();
    assert_eq!(c.count, 2);
    let b = counts.iter().find(|c| c.name == "buy" && c.version == "v1").unwrap();
    assert_eq!(b.count, 1);
}
