use cluster_agent::log_records::{
    convert_follow_from, convert_log_record, find_log_file, is_container_log_name, parse_time_bound,
    plan_log_stream, strip_runtime_prefix, DirEntryName, FindLogFileError, StreamError,
};
use cluster_agent::proto::LogRecordsStreamRequest;
use cluster_agent::rgkl_integration::{FollowFromType, LogRecord, UtcTime};

#[test]
fn log_records_service_test_follow_from_conversion() {
    assert!(matches!(convert_follow_from(0), FollowFromType::Noop));
    assert!(matches!(convert_follow_from(1), FollowFromType::Default));
    assert!(matches!(convert_follow_from(2), FollowFromType::End));
    assert!(matches!(convert_follow_from(3), FollowFromType::Noop));
    assert!(matches!(convert_follow_from(-1), FollowFromType::Noop));
}

#[test]
fn test_log_record_conversion() {
    let rgkl_record = LogRecord {
        timestamp: Some(UtcTime { seconds: 1234567890, nanos: 0 }),
        message: "test message".to_string(),
    };
    let grpc_record = convert_log_record(rgkl_record);
    assert_eq!(grpc_record.message, "test message");
    assert!(grpc_record.timestamp.is_some());
    let ts = grpc_record.timestamp.unwrap();
    assert_eq!(ts.seconds, 1234567890);
    assert_eq!(ts.nanos, 0);
    let r = convert_log_record(LogRecord {
        timestamp: Some(UtcTime { seconds: -5, nanos: 1_500_000_000 }),
        message: String::new(),
    });
    assert_eq!(r.timestamp.unwrap().nanos, 1_500_000_000);
    assert!(convert_log_record(LogRecord { timestamp: None, message: "m".into() })
        .timestamp
        .is_none());
}

#[test]
fn test_strip_runtime_prefix() {
    let test_cases = [
        ("docker://abc123", "abc123"),
        ("containerd://def456", "def456"),
        ("abc123", "abc123"),
    ];
    for (input, expected) in test_cases {
        assert_eq!(strip_runtime_prefix(input), expected);
    }
    assert_eq!(strip_runtime_prefix("a://b://c"), "b://c");
    assert_eq!(strip_runtime_prefix("://"), "");
    assert_eq!(strip_runtime_prefix(":/"), ":/");
}

fn names(list: &[&str]) -> Result<Vec<Result<DirEntryName, String>>, String> {
    Ok(list
        .iter()
        .map(|n| Ok(DirEntryName { file_name: n.to_string(), path: format!("/d/{}", n) }))
        .collect())
}

#[test]
fn find_log_file_matches_name_and_id() {
    let listing = names(&["other_ns_c-1.log", "pod_ns_c-aaa.log", "pod_ns_c-bbb.log"]);
    assert_eq!(find_log_file(&listing, "ns", "pod", "c", "docker://bbb").unwrap(), "/d/pod_ns_c-bbb.log");
    // An empty id is contained in every name: the first name that matches wins.
    assert_eq!(find_log_file(&listing, "ns", "pod", "c", "").unwrap(), "/d/pod_ns_c-aaa.log");
    // The whole name must follow the grammar with the given pod, namespace and container.
    let listing = names(&["xpod_ns_c-9.log.gz", "other-pod_ns_c-9.log", "pod_ns_c-d-9.log"]);
    assert!(matches!(
        find_log_file(&listing, "ns", "pod", "c", "9"),
        Err(FindLogFileError::NotFound { .. })
    ));
    let listing = names(&["other-pod_ns_c-abc.log"]);
    assert!(matches!(
        find_log_file(&listing, "ns", "pod", "c", "abc"),
        Err(FindLogFileError::NotFound { .. })
    ));
    // Container names may hold `-`; the id is held by what follows the last `-`.
    let listing = names(&["my-pod_default_my-app-0123abcd.log"]);
    assert_eq!(
        find_log_file(&listing, "default", "my-pod", "my-app", "containerd://0123abcd").unwrap(),
        "/d/my-pod_default_my-app-0123abcd.log"
    );
    // The id is looked for in the id field, not elsewhere in the name.
    assert!(find_log_file(&listing, "default", "my-pod", "my-app", "my").is_err());
    match find_log_file(&names(&["a.log"]), "ns", "pod", "c", "containerd://zz") {
        Err(FindLogFileError::NotFound { namespace, pod_name, container_name, container_id }) => {
            assert_eq!(
                (namespace.as_str(), pod_name.as_str(), container_name.as_str(), container_id.as_str()),
                ("ns", "pod", "c", "zz")
            );
        }
        other => panic!("unexpected {:?}", other),
    }
}

#[test]
fn find_log_file_errors_in_order() {
    // Names with regular-expression characters are compared as text.
    let listing = names(&["p.d_n(s_c+-x.log", "pod_ns_c-x.log"]);
    assert_eq!(find_log_file(&listing, "n(s", "p.d", "c+", "x").unwrap(), "/d/p.d_n(s_c+-x.log");
    assert_eq!(find_log_file(&listing, "ns", "pod", "c", "x").unwrap(), "/d/pod_ns_c-x.log");
    match find_log_file(&Err("denied".to_string()), "ns", "pod", "c", "x") {
        Err(FindLogFileError::ReadDir(e)) => assert_eq!(e, "denied"),
        other => panic!("unexpected {:?}", other),
    }
    let listing: Result<Vec<Result<DirEntryName, String>>, String> = Ok(vec![
        Ok(DirEntryName { file_name: "pod_ns_c-x.log".into(), path: "/d/hit".into() }),
        Err("bad entry".into()),
    ]);
    assert_eq!(find_log_file(&listing, "ns", "pod", "c", "x").unwrap(), "/d/hit");
    let listing: Result<Vec<Result<DirEntryName, String>>, String> = Ok(vec![
        Err("bad entry".into()),
        Ok(DirEntryName { file_name: "pod_ns_c-x.log".into(), path: "/d/hit".into() }),
    ]);
    assert!(matches!(find_log_file(&listing, "ns", "pod", "c", "x"), Err(FindLogFileError::ReadDir(_))));
}

#[test]
fn time_bounds() {
    assert_eq!(parse_time_bound("").unwrap(), None);
    let t = parse_time_bound("2023-01-01T12:00:00Z").unwrap().unwrap();
    assert_eq!(t.seconds, 1672574400);
    assert_eq!(t.nanos, 0);
    let t = parse_time_bound("2023-01-01 12:00:00.5+01:00").unwrap().unwrap();
    assert_eq!(t.seconds, 1672570800);
    assert_eq!(t.nanos, 500_000_000);
    assert!(parse_time_bound("yesterday").is_err());
}

fn request(start: &str, stop: &str) -> LogRecordsStreamRequest {
    LogRecordsStreamRequest {
        namespace: "ns".into(),
        pod_name: "pod".into(),
        container_name: "c".into(),
        container_id: "docker://id1".into(),
        start_time: start.into(),
        stop_time: stop.into(),
        grep: "needle".into(),
        follow_from: 2,
    }
}

#[test]
fn plan_stream_request() {
    let listing = names(&["pod_ns_c-id1.log"]);
    let plan = plan_log_stream(&request("2023-01-01T00:00:00Z", ""), &listing).unwrap();
    assert_eq!(plan.file_path, "/d/pod_ns_c-id1.log");
    assert_eq!(plan.start_time, Some(UtcTime { seconds: 1672531200, nanos: 0 }));
    assert_eq!(plan.stop_time, None);
    assert_eq!(plan.grep, "needle");
    assert_eq!(plan.follow_from, FollowFromType::End);
    assert!(matches!(
        plan_log_stream(&request("bad", "bad"), &listing),
        Err(StreamError::InvalidStartTime(_))
    ));
    assert!(matches!(
        plan_log_stream(&request("", "bad"), &listing),
        Err(StreamError::InvalidStopTime(_))
    ));
    assert!(matches!(
        plan_log_stream(&request("bad", ""), &names(&[])),
        Err(StreamError::FindLogFile(FindLogFileError::NotFound { .. }))
    ));
}

#[test]
fn container_log_names() {
    let id: Vec<char> = "bbb".chars().collect();
    assert!(is_container_log_name("pod_ns_c-abbbc.log", "ns", "pod", "c", &id));
    assert!(!is_container_log_name("pod_ns_c-abbbc.log", "ns", "pod", "d", &id));
    assert!(!is_container_log_name("pod_ns_c-abbbc.log", "nt", "pod", "c", &id));
    assert!(!is_container_log_name("pod_ns_c-abbbc.log", "ns", "po", "c", &id));
    assert!(!is_container_log_name("bbb_ns_c-x.log", "ns", "bbb", "c", &id));
    assert!(!is_container_log_name("pod_ns_c-bbb.log.gz", "ns", "pod", "c", &id));
}
