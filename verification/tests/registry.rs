use mirror_aggregation::registry::list_by_exact_name;

fn names(list: &[&str]) -> Vec<String> {
    list.iter().map(|name| name.to_string()).collect()
}

#[test]
fn lists_the_services_of_exactly_that_name() {
    let registry = names(&["web", "web-global", "web-global-2", "Web-global", "web-global"]);
    assert_eq!(list_by_exact_name(&registry, "web-global"), names(&["web-global", "web-global"]));
    assert_eq!(list_by_exact_name(&registry, "web"), names(&["web"]));
}

#[test]
fn lists_nothing_for_a_name_not_held() {
    let registry = names(&["web", "web-global"]);
    assert!(list_by_exact_name(&registry, "web-glob").is_empty());
    assert!(list_by_exact_name(&registry, "").is_empty());
    assert!(list_by_exact_name(&Vec::new(), "web").is_empty());
}

#[test]
fn a_lookup_is_no_prefix_match() {
    let registry = names(&["api-global-canary", "canary-api-global"]);
    assert!(list_by_exact_name(&registry, "api-global").is_empty());
}
