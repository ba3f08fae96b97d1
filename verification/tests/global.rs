use log_args_runtime::context::Context;
use log_args_runtime::global::GlobalContextStore;

fn owned(pairs: &[(&str, &str)]) -> Vec<(String, String)> {
    pairs.iter().map(|(k, v)| (k.to_string(), v.to_string())).collect()
}

#[test]
fn new_store_is_empty_and_usable() {
    let g = GlobalContextStore::new();
    assert!(!g.is_poisoned());
    assert_eq!(g.get("a"), None);
    assert!(g.snapshot().is_none());
}

#[test]
fn set_inserts_and_overwrites() {
    let mut g = GlobalContextStore::new();
    g.set("a", "1");
    g.set("b", "2");
    assert_eq!(g.get("a"), Some("1".to_string()));
    g.set("a", "3");
    assert_eq!(g.get("a"), Some("3".to_string()));
    assert_eq!(g.get("b"), Some("2".to_string()));
    assert_eq!(g.get("c"), None);
    assert_eq!(g.snapshot().map(|c| c.to_pairs()), Some(owned(&[("a", "3"), ("b", "2")])));
}

#[test]
fn snapshot_is_a_copy() {
    let mut g = GlobalContextStore::new();
    g.set("a", "1");
    let snap = g.snapshot();
    g.set("a", "2");
    assert_eq!(snap.map(|c| c.to_pairs()), Some(owned(&[("a", "1")])));
}

#[test]
fn publish_sets_every_field() {
    let mut g = GlobalContextStore::new();
    g.set("a", "1");
    g.publish(&Context::from_pairs(owned(&[("a", "10"), ("b", "20")])));
    assert_eq!(g.snapshot().map(|c| c.to_pairs()), Some(owned(&[("a", "10"), ("b", "20")])));
}

#[test]
fn poisoned_store_reads_as_empty() {
    let mut g = GlobalContextStore::new();
    g.set("a", "1");
    g.poison();
    assert!(g.is_poisoned());
    assert_eq!(g.get("a"), None);
    assert!(g.snapshot().is_none());
}

#[test]
fn poisoned_store_ignores_writes() {
    let mut g = GlobalContextStore::new();
    g.poison();
    g.set("a", "1");
    g.publish(&Context::from_pairs(owned(&[("b", "2")])));
    assert_eq!(g.get("a"), None);
    assert_eq!(g.get("b"), None);
    assert!(g.snapshot().is_none());
}
