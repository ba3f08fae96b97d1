use log_args_runtime::context::Context;

fn owned(pairs: &[(&str, &str)]) -> Vec<(String, String)> {
    pairs.iter().map(|(k, v)| (k.to_string(), v.to_string())).collect()
}

fn context(pairs: &[(&str, &str)]) -> Context {
    Context::from_pairs(owned(pairs))
}

#[test]
fn new_context_is_empty() {
    let c = Context::new();
    assert!(c.is_empty());
    assert_eq!(c.len(), 0);
    assert_eq!(c.to_pairs(), owned(&[]));
    assert_eq!(c.get("anything"), None);
    assert!(c.field_at(0).is_none());
}

#[test]
fn insert_keeps_the_keys_ascending() {
    let mut c = Context::new();
    c.insert("tenant_id".to_string(), "acme".to_string());
    c.insert("session_id".to_string(), "s1".to_string());
    assert_eq!(c.len(), 2);
    assert!(!c.is_empty());
    assert_eq!(c.to_pairs(), owned(&[("session_id", "s1"), ("tenant_id", "acme")]));
    c.insert("a".to_string(), "first".to_string());
    c.insert("zz".to_string(), "last".to_string());
    c.insert("t".to_string(), "middle".to_string());
    assert_eq!(
        c.to_pairs(),
        owned(&[
            ("a", "first"),
            ("session_id", "s1"),
            ("t", "middle"),
            ("tenant_id", "acme"),
            ("zz", "last")
        ])
    );
}

#[test]
fn equal_mappings_have_equal_fields() {
    let one = context(&[("a", "1"), ("b", "2"), ("c", "3")]);
    let other = context(&[("c", "3"), ("a", "0"), ("b", "2"), ("a", "1")]);
    assert_eq!(one.to_pairs(), other.to_pairs());
    assert_eq!(one.to_pairs(), owned(&[("a", "1"), ("b", "2"), ("c", "3")]));
}

#[test]
fn keys_ascend_by_their_bytes() {
    let c = context(&[("é", "5"), ("ab", "3"), ("a", "2"), ("B", "1"), ("", "0"), ("abc", "4")]);
    assert_eq!(
        c.to_pairs(),
        owned(&[("", "0"), ("B", "1"), ("a", "2"), ("ab", "3"), ("abc", "4"), ("é", "5")])
    );
    let mut sorted: Vec<String> = c.to_pairs().into_iter().map(|p| p.0).collect();
    let listed = sorted.clone();
    sorted.sort();
    assert_eq!(listed, sorted);
}

#[test]
fn insert_overwrites_in_place() {
    let mut c = context(&[("a", "1"), ("b", "2"), ("c", "3")]);
    c.insert("b".to_string(), "20".to_string());
    assert_eq!(c.len(), 3);
    assert_eq!(c.to_pairs(), owned(&[("a", "1"), ("b", "20"), ("c", "3")]));
}

#[test]
fn get_finds_each_key_and_only_those() {
    let c = context(&[("a", "1"), ("b", "2")]);
    assert_eq!(c.get("a"), Some(&"1".to_string()));
    assert_eq!(c.get("b"), Some(&"2".to_string()));
    assert_eq!(c.get("c"), None);
    assert_eq!(c.get(""), None);
    assert_eq!(c.get("A"), None);
    assert_eq!(c.get("ab"), None);
}

#[test]
fn contains_key_agrees_with_get() {
    let c = context(&[("a", "1"), ("", "empty key")]);
    assert!(c.contains_key("a"));
    assert!(c.contains_key(""));
    assert!(!c.contains_key("b"));
    assert_eq!(c.get(""), Some(&"empty key".to_string()));
}

#[test]
fn keys_are_compared_by_their_characters() {
    let c = context(&[("clé", "1"), ("cle", "2"), ("日本", "3")]);
    assert_eq!(c.get("clé"), Some(&"1".to_string()));
    assert_eq!(c.get("cle"), Some(&"2".to_string()));
    assert_eq!(c.get("日本"), Some(&"3".to_string()));
    assert_eq!(c.get("日"), None);
    assert_eq!(c.get("cl"), None);
}

#[test]
fn field_at_walks_the_fields() {
    let c = context(&[("a", "1"), ("b", "2")]);
    assert_eq!(c.field_at(0), Some((&"a".to_string(), &"1".to_string())));
    assert_eq!(c.field_at(1), Some((&"b".to_string(), &"2".to_string())));
    assert_eq!(c.field_at(2), None);
    assert_eq!(c.field_at(usize::MAX), None);
}

#[test]
fn remove_takes_out_one_key() {
    let mut c = context(&[("a", "1"), ("function", "f"), ("b", "2")]);
    c.remove("function");
    assert_eq!(c.to_pairs(), owned(&[("a", "1"), ("b", "2")]));
    assert!(!c.contains_key("function"));
}

#[test]
fn remove_of_absent_key_changes_nothing() {
    let mut c = context(&[("a", "1")]);
    c.remove("b");
    assert_eq!(c.to_pairs(), owned(&[("a", "1")]));
    let mut e = Context::new();
    e.remove("a");
    assert!(e.is_empty());
}

#[test]
fn extend_lets_the_other_context_win() {
    let mut c = context(&[("a", "1"), ("b", "2")]);
    let other = context(&[("b", "20"), ("c", "30")]);
    c.extend(&other);
    assert_eq!(c.to_pairs(), owned(&[("a", "1"), ("b", "20"), ("c", "30")]));
    assert_eq!(other.to_pairs(), owned(&[("b", "20"), ("c", "30")]));
}

#[test]
fn extend_with_empty_context_changes_nothing() {
    let mut c = context(&[("a", "1")]);
    c.extend(&Context::new());
    assert_eq!(c.to_pairs(), owned(&[("a", "1")]));
    let mut e = Context::new();
    e.extend(&c);
    assert_eq!(e.to_pairs(), owned(&[("a", "1")]));
}

#[test]
fn from_pairs_keeps_the_last_value_of_a_key() {
    let c = context(&[("a", "1"), ("b", "2"), ("a", "3")]);
    assert_eq!(c.len(), 2);
    assert_eq!(c.to_pairs(), owned(&[("a", "3"), ("b", "2")]));
}

#[test]
fn clone_copies_fields_and_is_independent() {
    let c = context(&[("a", "1"), ("b", "2")]);
    let mut d = c.clone();
    assert_eq!(d.to_pairs(), c.to_pairs());
    d.insert("a".to_string(), "changed".to_string());
    d.insert("z".to_string(), "26".to_string());
    assert_eq!(c.to_pairs(), owned(&[("a", "1"), ("b", "2")]));
    assert_eq!(d.to_pairs(), owned(&[("a", "changed"), ("b", "2"), ("z", "26")]));
}

#[test]
fn values_may_be_empty_or_hold_separators() {
    let c = context(&[("a", ""), ("b", "x=y,z")]);
    assert_eq!(c.get("a"), Some(&"".to_string()));
    assert_eq!(c.get("b"), Some(&"x=y,z".to_string()));
}
