use cluster_agent::file_watcher::{
    create_log_file_event, namespace_is_allowed, Debouncer, FsEvent, FsEventKind,
    LogFileEventType,
};
use cluster_agent::file_watcher::log_path;
use cluster_agent::log_file_name::{file_name_of, log_extension, parse_log_file_name};
use cluster_agent::text::chars_of;

#[test]
fn file_watcher_test_log_file_regex() {
    let valid_cases = [
        ("test-pod_default_app-container123.log", ("test-pod", "default", "app", "container123")),
        (
            "web-server_production_nginx-abc456def.log",
            ("web-server", "production", "nginx", "abc456def"),
        ),
    ];

    for (filename, (pod, namespace, container, id)) in valid_cases {
        let parsed = parse_log_file_name(filename).unwrap();
        assert_eq!(parsed.pod_name, pod);
        assert_eq!(parsed.namespace, namespace);
        assert_eq!(parsed.container_name, container);
        assert_eq!(parsed.container_id, id);
    }

    let invalid_cases =
        ["invalid.log", "pod_namespace.log", "pod_namespace_container.log", "not_a_log_file.txt"];

    for filename in invalid_cases {
        assert!(parse_log_file_name(filename).is_none());
    }
}

#[test]
fn log_file_name_grammar_edges() {
    // The container name may hold `_` and `.`; the id may not hold `.`.
    let p = parse_log_file_name("p_n_c_x.y-id.log").unwrap();
    assert_eq!(p.container_name, "c_x.y");
    assert_eq!(p.container_id, "id");
    // The container name may hold `-`: the id is what follows the last `-`.
    let p = parse_log_file_name("p_n_c-d-e.log").unwrap();
    assert_eq!(p.container_name, "c-d");
    assert_eq!(p.container_id, "e");
    let p = parse_log_file_name("my-pod_default_my-app-0123abcd.log").unwrap();
    assert_eq!(p.pod_name, "my-pod");
    assert_eq!(p.namespace, "default");
    assert_eq!(p.container_name, "my-app");
    assert_eq!(p.container_id, "0123abcd");
    for bad in [
        "_n_c-i.log",
        "p__c-i.log",
        "p_n_-i.log",
        "p_n_c-.log",
        "p_n_c-i.j.log",
        "p_n_c.log",
        "p_n_c-i.log.log",
        "p_n_c-i.logx",
        "p_n_c-i.lo",
        "p_n_c-i.LOG",
        "",
    ] {
        assert!(parse_log_file_name(bad).is_none(), "{}", bad);
    }
    let p = parse_log_file_name("pöd_ñs_cöntainer-ïd.log").unwrap();
    assert_eq!(p.pod_name, "pöd");
    assert_eq!(p.container_id, "ïd");
}

#[test]
fn file_names_and_extensions() {
    assert!(log_path("/var/log/containers/a.log"));
    assert!(log_path("/var/log/containers/a.log/"));
    assert!(!log_path("/var/log/x.log/.."));
    assert!(!log_path("/var/log.d/containers"));
    assert!(!log_path("/var/log/.log"));
    assert!(log_extension(&chars_of("a.log")));
    assert!(log_extension(&chars_of("a.b.log")));
    assert!(!log_extension(&chars_of(".log")));
    assert!(!log_extension(&chars_of("a.logs")));
    assert!(!log_extension(&chars_of("alog")));
}

#[test]
fn test_create_log_file_event() {
    let allowed_namespaces = vec!["default".to_string(), "test".to_string()];
    let path = "/var/log/containers/test-pod_default_app-container123.log";
    let log_event =
        create_log_file_event(path, FsEventKind::Create, &allowed_namespaces);

    assert!(log_event.is_some());
    let log_event = log_event.unwrap();
    assert_eq!(log_event.event_type, LogFileEventType::Created);
    assert_eq!(log_event.namespace, "default");
    assert_eq!(log_event.pod_name, "test-pod");
    assert_eq!(log_event.container_name, "app");
    assert_eq!(log_event.container_id, "container123");
    assert_eq!(log_event.file_path, path);
}

#[test]
fn test_namespace_filtering() {
    let allowed_namespaces = vec!["allowed".to_string()];
    let path = "/var/log/containers/test-pod_forbidden_app-container123.log";
    let log_event = create_log_file_event(path, FsEventKind::Create, &allowed_namespaces);
    assert!(log_event.is_none());
}

#[test]
fn event_kinds_and_filters() {
    let path = "/x/p_ns_c-id.log";
    let none: Vec<String> = vec![];
    assert_eq!(
        create_log_file_event(path, FsEventKind::Modify, &none).unwrap().event_type,
        LogFileEventType::Modified
    );
    assert_eq!(
        create_log_file_event(path, FsEventKind::Remove, &none).unwrap().event_type,
        LogFileEventType::Deleted
    );
    assert!(create_log_file_event(path, FsEventKind::Other, &none).is_none());
    // An empty name among others widens nothing; a single empty name stands for all namespaces.
    let with_empty = vec!["other".to_string(), String::new()];
    assert!(create_log_file_event(path, FsEventKind::Create, &with_empty).is_none());
    let all = vec![String::new()];
    assert!(create_log_file_event(path, FsEventKind::Create, &all).is_some());
    let with_default = vec![String::new(), "ns".to_string()];
    assert!(create_log_file_event(path, FsEventKind::Create, &with_default).is_some());
    assert!(namespace_is_allowed(&all, "anything"));
    assert!(!namespace_is_allowed(&with_empty, "anything"));
    assert!(!namespace_is_allowed(&with_empty, ""));
    assert!(!namespace_is_allowed(&vec![String::new(), String::new()], "anything"));
    assert!(namespace_is_allowed(&none, "anything"));
    assert!(!namespace_is_allowed(&vec!["a".to_string()], "b"));
    assert!(create_log_file_event("/x/not-a-log.txt", FsEventKind::Create, &none).is_none());
}

const MS: u128 = 1_000_000;

#[test]
fn debouncer_waits_for_quiet() {
    let mut d = Debouncer::new(100, vec![]);
    d.record(
        &FsEvent {
            kind: FsEventKind::Create,
            paths: vec!["/l/p_ns_c-1.log".to_string(), "/l/readme.txt".to_string()],
        },
        0,
    );
    assert!(d.tick(50 * MS).is_empty());
    // A later event on the same path restarts the wait and sets the kind.
    d.record(
        &FsEvent { kind: FsEventKind::Modify, paths: vec!["/l/p_ns_c-1.log".to_string()] },
        60 * MS,
    );
    assert!(d.tick(120 * MS).is_empty());
    let events = d.tick(160 * MS);
    assert_eq!(events.len(), 1);
    assert_eq!(events[0].event_type, LogFileEventType::Modified);
    assert_eq!(events[0].pod_name, "p");
    // Handed out once.
    assert!(d.tick(1000 * MS).is_empty());
}

#[test]
fn debouncer_filters_and_orders() {
    let mut d = Debouncer::new(0, vec!["keep".to_string()]);
    d.record(
        &FsEvent {
            kind: FsEventKind::Create,
            paths: vec![
                "/l/a_keep_c-1.log".to_string(),
                "/l/b_drop_c-2.log".to_string(),
                "/l/bad.log".to_string(),
                "/l/c_keep_c-3.log".to_string(),
            ],
        },
        5,
    );
    // A clock reading before the event counts as no time passed; with no debounce it is due.
    let events = d.tick(0);
    assert_eq!(events.len(), 2);
    assert_eq!(events[0].pod_name, "a");
    assert_eq!(events[1].pod_name, "c");
    assert!(d.tick(10).is_empty());
}

#[test]
fn debouncer_take_due_partitions() {
    let mut d = Debouncer::new(1, vec![]);
    d.record(&FsEvent { kind: FsEventKind::Create, paths: vec!["/a/x.log".to_string()] }, 0);
    d.record(&FsEvent { kind: FsEventKind::Create, paths: vec!["/a/y.log".to_string()] }, MS);
    let due = d.take_due(MS);
    assert_eq!(due.len(), 1);
    assert_eq!(due[0].path, "/a/x.log");
    let due = d.take_due(2 * MS);
    assert_eq!(due.len(), 1);
    assert_eq!(due[0].path, "/a/y.log");
    assert_eq!(due[0].since, MS);
}

#[test]
fn file_name_of_paths() {
    assert_eq!(file_name_of("/var/log/containers/a.log").as_deref(), Some("a.log"));
    assert_eq!(file_name_of("/var/log/containers/a.log/").as_deref(), Some("a.log"));
    assert_eq!(file_name_of("a//b.log/.").as_deref(), Some("b.log"));
    assert_eq!(file_name_of("b.log").as_deref(), Some("b.log"));
    assert_eq!(file_name_of("/var/log/x.log/.."), None);
    assert_eq!(file_name_of("/"), None);
    assert_eq!(file_name_of(""), None);
    assert_eq!(file_name_of("./"), None);
}
