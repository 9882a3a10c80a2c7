use cluster_agent::file_watcher::{LogFileEvent, LogFileEventType};
use cluster_agent::log_file_name::parse_log_file_name;
use cluster_agent::log_metadata::{
    create_log_metadata, create_watch_event, list_log_metadata, node_name_or_unknown, FileStat,
    MetadataError, ScannedEntry,
};

#[test]
fn log_metadata_service_test_log_file_regex() {
    let test_cases = [
        ("test-pod_default_app-container123.log", true),
        ("web-server_production_nginx-abc456def.log", true),
        ("invalid.log", false),
        ("pod_namespace.log", false),
    ];
    for (filename, should_match) in test_cases {
        assert_eq!(parse_log_file_name(filename).is_some(), should_match, "Failed for: {}", filename);
    }
}

#[test]
fn test_create_log_metadata() {
    let stat: Result<FileStat, String> = Ok(FileStat { size: 42, modified_secs: 1_700_000_000 });
    let m = create_log_metadata("node-1", "/var/log/containers/p_ns_c-abc.log", &stat).unwrap();
    assert_eq!(m.id, "abc");
    let spec = m.spec.unwrap();
    assert_eq!(spec.node_name, "node-1");
    assert_eq!(spec.namespace, "ns");
    assert_eq!(spec.pod_name, "p");
    assert_eq!(spec.container_name, "c");
    assert_eq!(spec.container_id, "abc");
    let info = m.file_info.unwrap();
    assert_eq!(info.size, 42);
    let ts = info.last_modified_at.unwrap();
    assert_eq!(ts.seconds, 1_700_000_000);
    assert_eq!(ts.nanos, 0);
}

#[test]
fn create_log_metadata_errors() {
    let ok: Result<FileStat, String> = Ok(FileStat { size: 1, modified_secs: 1 });
    assert!(matches!(
        create_log_metadata("n", "/var/log/containers/nope.log", &ok),
        Err(MetadataError::UnexpectedFileName)
    ));
    assert!(matches!(create_log_metadata("n", "/x/..", &ok), Err(MetadataError::InvalidFileName)));
    let bad: Result<FileStat, String> = Err("gone".to_string());
    match create_log_metadata("n", "/x/p_ns_c-abc.log", &bad) {
        Err(MetadataError::Unreadable(e)) => assert_eq!(e, "gone"),
        other => panic!("unexpected {:?}", other),
    }
    // Sizes beyond i64 wrap as the cast does.
    let huge: Result<FileStat, String> = Ok(FileStat { size: u64::MAX, modified_secs: 0 });
    let m = create_log_metadata("n", "/x/p_ns_c-abc.log", &huge).unwrap();
    assert_eq!(m.file_info.unwrap().size, -1);
}

fn entry(path: &str, size: u64) -> ScannedEntry {
    ScannedEntry { path: path.to_string(), stat: Ok(FileStat { size, modified_secs: 7 }) }
}

#[test]
fn list_filters_by_extension_name_and_namespace() {
    let entries = vec![
        entry("/d/a_ns1_c-1.log", 1),
        entry("/d/b_ns2_c-2.log", 2),
        entry("/d/readme.txt", 3),
        entry("/d/bad.log", 4),
        ScannedEntry { path: "/d/c_ns1_c-3.log".to_string(), stat: Err("io".to_string()) },
        entry("/d/d_ns1_c-4.log", 5),
    ];
    let all = list_log_metadata("n", &vec![], &entries);
    assert_eq!(all.iter().map(|m| m.id.clone()).collect::<Vec<_>>(), vec!["1", "2", "4"]);
    let ns1 = list_log_metadata("n", &vec!["ns1".to_string()], &entries);
    assert_eq!(ns1.iter().map(|m| m.id.clone()).collect::<Vec<_>>(), vec!["1", "4"]);
    // An empty name among others widens nothing: only the named namespaces are listed.
    let with_empty = list_log_metadata("n", &vec!["zz".to_string(), String::new()], &entries);
    assert!(with_empty.is_empty());
    let with_empty = list_log_metadata("n", &vec!["ns1".to_string(), String::new()], &entries);
    assert_eq!(with_empty.iter().map(|m| m.id.clone()).collect::<Vec<_>>(), vec!["1", "4"]);
    // A single empty name stands for all namespaces, as no namespaces do.
    let single_empty = list_log_metadata("n", &vec![String::new()], &entries);
    assert_eq!(single_empty.len(), 3);
    let none = list_log_metadata("n", &vec!["zz".to_string()], &entries);
    assert!(none.is_empty());
}

#[test]
fn watch_event_types() {
    let make = |t| LogFileEvent {
        event_type: t,
        namespace: "ns".to_string(),
        pod_name: "p".to_string(),
        container_name: "c".to_string(),
        container_id: "id".to_string(),
        file_path: "/d/p_ns_c-id.log".to_string(),
    };
    let w = create_watch_event("node", make(LogFileEventType::Created));
    assert_eq!(w.event_type, "ADDED");
    let o = w.object.unwrap();
    assert_eq!(o.id, "id");
    assert!(o.file_info.is_none());
    let s = o.spec.unwrap();
    assert_eq!(s.node_name, "node");
    assert_eq!(s.namespace, "ns");
    assert_eq!(create_watch_event("n", make(LogFileEventType::Modified)).event_type, "MODIFIED");
    assert_eq!(create_watch_event("n", make(LogFileEventType::Deleted)).event_type, "DELETED");
}

#[test]
fn node_name_default() {
    assert_eq!(node_name_or_unknown(None), "unknown");
    assert_eq!(node_name_or_unknown(Some("n1".to_string())), "n1");
}
