use mirror_aggregation::resolver::get_parent_name;
use mirror_aggregation::service::{MirroredService, CLUSTER_NAME_KEY, PARENT_NAME_KEY};

fn service(name: &str, annotations: &[(&str, &str)]) -> MirroredService {
    let mut svc = MirroredService::new(name.to_string());
    for (key, value) in annotations {
        svc = svc.with_annotation(key.to_string(), value.to_string());
    }
    svc
}

#[test]
fn own_name_without_parent_annotation() {
    let svc = service("nginx-svc", &[]);
    assert_eq!(get_parent_name(&svc), "nginx-svc");
}

#[test]
fn own_name_with_unrelated_annotations() {
    let svc = service("nginx-svc", &[(CLUSTER_NAME_KEY, "east-1"), ("app", "nginx")]);
    assert_eq!(get_parent_name(&svc), "nginx-svc");
}

#[test]
fn parent_annotation_takes_precedence() {
    let svc = service("nginx-svc-0-east", &[(PARENT_NAME_KEY, "nginx-svc-east")]);
    assert_eq!(get_parent_name(&svc), "nginx-svc-east");
}

#[test]
fn parent_annotation_wins_whatever_the_own_name() {
    for own in ["", "x", "nginx-svc-east", "something-else-entirely"] {
        let svc = service(own, &[(PARENT_NAME_KEY, "X")]);
        assert_eq!(get_parent_name(&svc), "X");
    }
}

#[test]
fn empty_parent_annotation_falls_through_to_own_name() {
    let svc = service("nginx-svc", &[(PARENT_NAME_KEY, "")]);
    assert_eq!(get_parent_name(&svc), "nginx-svc");
}

#[test]
fn resolving_a_parent_is_idempotent() {
    let child = service("nginx-svc-0-east", &[(PARENT_NAME_KEY, "nginx-svc-east")]);
    let parent = service(&get_parent_name(&child), &[]);
    assert_eq!(get_parent_name(&parent), get_parent_name(&child));
}

#[test]
fn empty_own_name_is_returned_as_it_is() {
    let svc = service("", &[]);
    assert_eq!(get_parent_name(&svc), "");
}

#[test]
fn later_parent_annotation_replaces_earlier() {
    let svc = service("own", &[(PARENT_NAME_KEY, "first"), (PARENT_NAME_KEY, "second")]);
    assert_eq!(get_parent_name(&svc), "second");
}
