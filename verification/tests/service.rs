use mirror_aggregation::service::{MirroredService, CLUSTER_NAME_KEY, PARENT_NAME_KEY};

#[test]
fn recognized_keys() {
    assert_eq!(PARENT_NAME_KEY, "mirror.linkerd.io/headless-mirror-svc-name");
    assert_eq!(CLUSTER_NAME_KEY, "mirror.linkerd.io/cluster-name");
}

#[test]
fn new_service_has_name_and_no_annotations() {
    let svc = MirroredService::new("web".to_string());
    assert_eq!(svc.name(), "web");
    assert_eq!(svc.annotation(PARENT_NAME_KEY), None);
    assert_eq!(svc.annotation(CLUSTER_NAME_KEY), None);
    assert_eq!(svc.annotation(""), None);
}

#[test]
fn annotation_is_found_under_its_key_only() {
    let svc = MirroredService::new("web".to_string())
        .with_annotation("a".to_string(), "1".to_string())
        .with_annotation("b".to_string(), "2".to_string());
    assert_eq!(svc.annotation("a"), Some("1"));
    assert_eq!(svc.annotation("b"), Some("2"));
    assert_eq!(svc.annotation("c"), None);
    assert_eq!(svc.annotation("A"), None);
    assert_eq!(svc.name(), "web");
}

#[test]
fn annotating_twice_keeps_the_last_value() {
    let svc = MirroredService::new("web".to_string())
        .with_annotation("a".to_string(), "1".to_string())
        .with_annotation("b".to_string(), "2".to_string())
        .with_annotation("a".to_string(), "3".to_string());
    assert_eq!(svc.annotation("a"), Some("3"));
    assert_eq!(svc.annotation("b"), Some("2"));
}

#[test]
fn insertion_order_is_irrelevant() {
    let one = MirroredService::new("web".to_string())
        .with_annotation("a".to_string(), "1".to_string())
        .with_annotation("b".to_string(), "2".to_string());
    let other = MirroredService::new("web".to_string())
        .with_annotation("b".to_string(), "2".to_string())
        .with_annotation("a".to_string(), "1".to_string());
    for key in ["a", "b", "c"] {
        assert_eq!(one.annotation(key), other.annotation(key));
    }
}

#[test]
fn empty_key_and_empty_value_are_kept() {
    let svc = MirroredService::new("web".to_string())
        .with_annotation("".to_string(), "".to_string());
    assert_eq!(svc.annotation(""), Some(""));
}

#[test]
fn keys_compare_by_characters() {
    let svc = MirroredService::new("web".to_string())
        .with_annotation("clé".to_string(), "välue".to_string());
    assert_eq!(svc.annotation("clé"), Some("välue"));
    assert_eq!(svc.annotation("cle"), None);
}
