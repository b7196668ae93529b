use metrics_core::errors::MetricsError;
use metrics_core::flush::{series_payload, FlushSession, PartitionTimeLevel, StreamType};

fn buffer(entries: &[(&str, &[&str])]) -> Vec<(String, Vec<String>)> {
    entries
        .iter()
        .map(|(k, lines)| (k.to_string(), lines.iter().map(|l| l.to_string()).collect()))
        .collect()
}

#[test]
fn payload_is_lines_each_followed_by_a_newline() {
    let lines = vec!["a".to_string(), "b".to_string()];
    assert_eq!(series_payload(&lines), b"a\nb\n".to_vec());
    let empty: Vec<String> = Vec::new();
    assert_eq!(series_payload(&empty), Vec::<u8>::new());
}

#[test]
fn empty_group_is_skipped_and_nonempty_group_appended_once() {
    // two series keys, one with no lines: exactly one append is issued, with
    // payload "a\nb\n", and none for the empty series
    let buf = buffer(&[("empty", &[]), ("full", &["a", "b"])]);
    let mut session = FlushSession::new(&buf, 0, "org", false);
    let mut out_name = String::new();
    session.segment_resolved("files/org/metrics/_series/0.wal", &mut out_name);
    let first = session.next_append().unwrap();
    assert_eq!(first.0, "full");
    assert_eq!(first.1, b"a\nb\n".to_vec());
    assert!(session.next_append().is_none());
    assert!(session.is_finished());
}

#[test]
fn map_buffer_issues_the_same_appends() {
    let mut map: std::collections::HashMap<String, Vec<String>, ahash::RandomState> =
        std::collections::HashMap::default();
    map.insert("empty".to_string(), Vec::new());
    map.insert("full".to_string(), vec!["a".to_string(), "b".to_string()]);
    let mut session = FlushSession::from_map(map, 0, "org", false);
    let mut out_name = String::new();
    session.segment_resolved("seg", &mut out_name);
    let first = session.next_append().unwrap();
    assert_eq!(first.0, "full");
    assert_eq!(first.1, b"a\nb\n".to_vec());
    assert!(session.next_append().is_none());
}

#[test]
fn prepopulated_segment_name_is_not_overwritten() {
    let buf = buffer(&[("full", &["a", "b"])]);
    let mut out_name = String::new();

    let mut first_call = FlushSession::new(&buf, 0, "org", false);
    first_call.segment_resolved("segment-one", &mut out_name);
    assert_eq!(out_name, "segment-one");
    while first_call.next_append().is_some() {}

    // a second flush call resolves a segment again, but the name recorded by
    // the first call is canonical and stays
    let mut second_call = FlushSession::new(&buf, 0, "org", false);
    second_call.segment_resolved("segment-two", &mut out_name);
    assert_eq!(out_name, "segment-one");
}

#[test]
fn request_carries_the_fixed_routing_data() {
    let buf = buffer(&[("full", &["a"])]);
    let session = FlushSession::new(&buf, 7, "acme", true);
    let request = session.request();
    assert_eq!(request.thread_id, 7);
    assert_eq!(request.org_id, "acme");
    assert_eq!(request.stream_name, "_series");
    assert!(matches!(request.stream_type, StreamType::Metrics));
    assert!(matches!(request.time_level, PartitionTimeLevel::Daily));
    assert!(request.memory_mode);
}

#[test]
fn two_sessions_of_one_call_share_one_timestamp() {
    let buf = buffer(&[("a", &["1"]), ("b", &["2"])]);
    let session = FlushSession::new(&buf, 0, "org", false);
    // the timestamp is read once per call: both appends belong to the one
    // request, so there is nothing else it could differ from
    let t = session.request().timestamp_micros;
    assert_eq!(session.request().timestamp_micros, t);
}

#[test]
fn storage_unavailable_ends_the_call_before_any_append() {
    let buf = buffer(&[("full", &["a"])]);
    let mut session = FlushSession::new(&buf, 0, "org", false);
    let e = session.segment_unavailable();
    assert!(matches!(e, MetricsError::StorageUnavailable));
    assert!(session.is_finished());
    assert_eq!(session.pending_appends(), 1);
}

#[test]
fn append_failure_reports_the_failing_series_key_and_stops() {
    let buf = buffer(&[("one", &["x"]), ("two", &["y"])]);
    let mut session = FlushSession::new(&buf, 0, "org", false);
    let mut out_name = String::new();
    session.segment_resolved("seg", &mut out_name);
    let first = session.next_append().unwrap();
    assert_eq!(first.0, "one");
    let e = session.append_failed();
    match e {
        MetricsError::AppendFailure { series_key } => assert_eq!(series_key, "one"),
        _ => panic!("expected an append failure"),
    }
    assert!(session.is_finished());
    assert_eq!(session.pending_appends(), 1);
}
