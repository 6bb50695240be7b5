use mirror_aggregation::text::{chars_of, find_first, matches_at, replace_first_in};

fn chars(s: &str) -> Vec<char> {
    s.chars().collect()
}

#[test]
fn chars_of_gives_the_characters_in_order() {
    assert_eq!(chars_of(""), Vec::<char>::new());
    assert_eq!(chars_of("a-b"), vec!['a', '-', 'b']);
    assert_eq!(chars_of("é-ß"), vec!['é', '-', 'ß']);
}

#[test]
fn matches_at_compares_the_window() {
    let text = chars("foo-bar-east-1");
    let pat = chars("-east-1");
    assert!(matches_at(&text, &pat, 7));
    assert!(!matches_at(&text, &pat, 0));
    assert!(!matches_at(&text, &pat, 3));
    assert!(matches_at(&text, &chars(""), 14));
    assert!(matches_at(&text, &text, 0));
}

#[test]
fn find_first_gives_the_leftmost_index() {
    assert_eq!(find_first(&chars("a-b-c"), &chars("-")), Some(1));
    assert_eq!(find_first(&chars("foo-bar-east-1"), &chars("-east-1")), Some(7));
    assert_eq!(find_first(&chars("aaa"), &chars("aa")), Some(0));
    assert_eq!(find_first(&chars("abc"), &chars("c")), Some(2));
    assert_eq!(find_first(&chars("abc"), &chars("abc")), Some(0));
}

#[test]
fn find_first_of_an_absent_pattern() {
    assert_eq!(find_first(&chars("foo-bar"), &chars("-east-1")), None);
    assert_eq!(find_first(&chars("ab"), &chars("abc")), None);
    assert_eq!(find_first(&chars(""), &chars("a")), None);
    assert_eq!(find_first(&chars("foo-bar-east"), &chars("-east-1")), None);
}

#[test]
fn find_first_of_the_empty_pattern() {
    assert_eq!(find_first(&chars("abc"), &chars("")), Some(0));
    assert_eq!(find_first(&chars(""), &chars("")), Some(0));
}

#[test]
fn replace_first_replaces_a_trailing_occurrence() {
    assert_eq!(replace_first_in("foo-bar-east-1", "-east-1", "-global"), "foo-bar-global");
}

#[test]
fn replace_first_leaves_text_without_the_pattern() {
    assert_eq!(replace_first_in("foo-bar", "-east-1", "-global"), "foo-bar");
    assert_eq!(replace_first_in("", "-", "-global"), "");
}

#[test]
fn replace_first_replaces_only_the_leftmost_occurrence() {
    assert_eq!(replace_first_in("a-east-b-east", "-east", "-global"), "a-global-b-east");
    assert_eq!(replace_first_in("foo-bar", "-", "-global"), "foo-globalbar");
    assert_eq!(replace_first_in("aaaa", "aa", "b"), "baa");
}

#[test]
fn replace_first_at_the_start_and_in_the_middle() {
    assert_eq!(replace_first_in("-east-svc", "-east", "-global"), "-global-svc");
    assert_eq!(replace_first_in("svc-east-0", "-east", "-global"), "svc-global-0");
}

#[test]
fn replace_first_of_the_whole_text() {
    assert_eq!(replace_first_in("-east", "-east", "-global"), "-global");
    assert_eq!(replace_first_in("-east", "-east", ""), "");
}

#[test]
fn replace_first_counts_characters_not_bytes() {
    assert_eq!(replace_first_in("café-östlich-1", "-östlich", "-global"), "café-global-1");
    assert_eq!(replace_first_in("日本-東", "-東", "-global"), "日本-global");
}

#[test]
fn replace_first_of_the_empty_pattern_prepends() {
    assert_eq!(replace_first_in("abc", "", "x"), "xabc");
}
