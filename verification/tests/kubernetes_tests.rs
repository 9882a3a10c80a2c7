use cluster_agent::config::{Config, KubernetesConfig};
use cluster_agent::kubernetes::{
    kube_config_source, KubeConfigSource, PermissionCheck, PermissionError, PermissionStep,
    ReviewAnswer,
};

fn test_config() -> Config {
    let mut config = Config::default();
    config.kubernetes = KubernetesConfig { in_cluster: false, kubeconfig_path: None };
    config
}

#[test]
fn test_kubernetes_client_creation() {
    let config = test_config();
    assert!(config.kubernetes.kubeconfig_path.is_none());
    assert!(matches!(kube_config_source(&config.kubernetes), KubeConfigSource::Infer));
}

#[test]
fn config_sources() {
    assert!(matches!(
        kube_config_source(&Config::default().kubernetes),
        KubeConfigSource::InCluster
    ));
    let k = KubernetesConfig { in_cluster: false, kubeconfig_path: Some("/kc".to_string()) };
    match kube_config_source(&k) {
        KubeConfigSource::Kubeconfig(p) => assert_eq!(p, "/kc"),
        other => panic!("unexpected {:?}", other),
    }
}

#[test]
fn test_empty_namespaces_permission_check() {
    let namespaces: Vec<String> = vec![];
    assert!(namespaces.is_empty());
    let (_, step) = PermissionCheck::start(&namespaces, "list");
    assert!(matches!(step, PermissionStep::Granted));

    let single_empty = vec!["".to_string()];
    assert_eq!(single_empty.len(), 1);
    assert!(single_empty[0].is_empty());
    let (_, step) = PermissionCheck::start(&single_empty, "list");
    assert!(matches!(step, PermissionStep::Granted));
}

fn ask(step: &PermissionStep) -> String {
    match step {
        PermissionStep::Ask(ns) => ns.clone(),
        other => panic!("expected a question, got {:?}", other),
    }
}

#[test]
fn permission_check_asks_each_nonempty_namespace() {
    let ns = vec!["a".to_string(), "".to_string(), "b".to_string()];
    let (mut check, step) = PermissionCheck::start(&ns, "watch");
    assert_eq!(ask(&step), "a");
    let step = check.on_answer(ReviewAnswer::Completed(Some(true)));
    assert_eq!(ask(&step), "b");
    let step = check.on_answer(ReviewAnswer::Completed(Some(true)));
    assert!(matches!(step, PermissionStep::Granted));
}

#[test]
fn permission_check_all_empty_names_granted() {
    let ns = vec!["".to_string(), "".to_string()];
    let (_, step) = PermissionCheck::start(&ns, "list");
    assert!(matches!(step, PermissionStep::Granted));
}

#[test]
fn permission_check_denials() {
    let ns = vec!["a".to_string(), "b".to_string()];
    let (mut check, _) = PermissionCheck::start(&ns, "list");
    let step = check.on_answer(ReviewAnswer::Completed(Some(false)));
    match step {
        PermissionStep::Refused(e) => {
            assert_eq!(e.message(), "Access denied for verb 'list' on namespace 'a'");
            assert!(e.denies_access());
        }
        other => panic!("unexpected {:?}", other),
    }
    let (mut check, _) = PermissionCheck::start(&ns, "list");
    check.on_answer(ReviewAnswer::Completed(Some(true)));
    match check.on_answer(ReviewAnswer::Completed(None)) {
        PermissionStep::Refused(PermissionError::Denied { namespace, verb }) => {
            assert_eq!(namespace, "b");
            assert_eq!(verb, "list");
        }
        other => panic!("unexpected {:?}", other),
    }
    let (mut check, _) = PermissionCheck::start(&ns, "list");
    match check.on_answer(ReviewAnswer::Failed("timeout".to_string())) {
        PermissionStep::Refused(e) => {
            assert_eq!(e.message(), "Failed to check permissions for namespace: a");
            assert!(!e.denies_access());
        }
        other => panic!("unexpected {:?}", other),
    }
}

#[test]
fn failed_check_on_odd_namespace_reads_as_denial() {
    let e = PermissionError::CheckFailed {
        namespace: "x Access denied y".to_string(),
        reason: "r".to_string(),
    };
    assert!(e.denies_access());
}

#[test]
fn access_review_targets_pod_logs() {
    let r = cluster_agent::kubernetes::access_review_for("ns", "watch");
    assert_eq!(r.namespace, "ns");
    assert_eq!(r.verb, "watch");
    assert_eq!(r.group, "");
    assert_eq!(r.resource, "pods");
    assert_eq!(r.subresource, "log");
}
