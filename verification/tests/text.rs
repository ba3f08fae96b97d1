use log_args_runtime::text::str_eq;

#[test]
fn equal_strings_are_equal() {
    assert!(str_eq("", ""));
    assert!(str_eq("a", "a"));
    assert!(str_eq("tenant_id", "tenant_id"));
    assert!(str_eq("日本語", "日本語"));
}

#[test]
fn different_strings_are_different() {
    assert!(!str_eq("a", "b"));
    assert!(!str_eq("a", ""));
    assert!(!str_eq("", "a"));
    assert!(!str_eq("abc", "abd"));
    assert!(!str_eq("abc", "ab"));
    assert!(!str_eq("ab", "abc"));
    assert!(!str_eq("a", "A"));
    assert!(!str_eq("é", "e"));
    assert!(!str_eq("é", "e\u{301}"));
}

#[test]
fn str_eq_agrees_with_the_standard_library() {
    let samples = ["", "a", "ab", "ba", "function", "Function", "clé", "cle", "日本", "日"];
    for x in samples {
        for y in samples {
            assert_eq!(str_eq(x, y), x == y);
        }
    }
}
