use minihttp::{QueryString, Value};

fn single(qs: &QueryString, key: &str) -> Option<String> {
    match qs.get(key) {
        Some(Value::Single(s)) => Some(s.clone()),
        _ => None,
    }
}

fn multiple(qs: &QueryString, key: &str) -> Option<Vec<String>> {
    match qs.get(key) {
        Some(Value::Multiple(v)) => Some(v.clone()),
        _ => None,
    }
}

#[test]
fn repeated_key_collects_values_in_order() {
    let qs = QueryString::parse("a=1&a=2&a=3");
    assert_eq!(multiple(&qs, "a"), Some(vec!["1".to_string(), "2".to_string(), "3".to_string()]));
}

#[test]
fn key_without_equals_has_empty_value() {
    let qs = QueryString::parse("justkey");
    assert_eq!(single(&qs, "justkey"), Some(String::new()));
}

#[test]
fn absent_key_gives_none() {
    let qs = QueryString::parse("a=1&b=2");
    assert!(qs.get("c").is_none());
    assert!(qs.get("").is_none());
    assert!(qs.get("a=1").is_none());
}

#[test]
fn distinct_keys_each_single() {
    let qs = QueryString::parse("k1=v1&k2=v2&k3=v3");
    assert_eq!(single(&qs, "k1"), Some("v1".to_string()));
    assert_eq!(single(&qs, "k2"), Some("v2".to_string()));
    assert_eq!(single(&qs, "k3"), Some("v3".to_string()));
}

#[test]
fn second_occurrence_turns_into_multiple() {
    let qs = QueryString::parse("x=1&y=2&x=3");
    assert_eq!(multiple(&qs, "x"), Some(vec!["1".to_string(), "3".to_string()]));
    assert_eq!(single(&qs, "y"), Some("2".to_string()));
}

#[test]
fn value_split_at_first_equals() {
    let qs = QueryString::parse("a=b=c");
    assert_eq!(single(&qs, "a"), Some("b=c".to_string()));
}

#[test]
fn empty_query_has_empty_key() {
    let qs = QueryString::parse("");
    assert_eq!(single(&qs, ""), Some(String::new()));
}

#[test]
fn empty_segments_are_empty_keys() {
    let qs = QueryString::parse("a=1&&");
    assert_eq!(single(&qs, "a"), Some("1".to_string()));
    assert_eq!(multiple(&qs, ""), Some(vec![String::new(), String::new()]));
}

#[test]
fn values_are_not_decoded() {
    let qs = QueryString::parse("q=a%20b+c&n=%C3%A9");
    assert_eq!(single(&qs, "q"), Some("a%20b+c".to_string()));
    assert_eq!(single(&qs, "n"), Some("%C3%A9".to_string()));
}

#[test]
fn non_ascii_keys_and_values() {
    let qs = QueryString::parse("clé=été&clé=hiver");
    assert_eq!(multiple(&qs, "clé"), Some(vec!["été".to_string(), "hiver".to_string()]));
}
