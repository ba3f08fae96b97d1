use log_args_runtime::context::Context;
use log_args_runtime::stack::FrameStack;

fn owned(pairs: &[(&str, &str)]) -> Vec<(String, String)> {
    pairs.iter().map(|(k, v)| (k.to_string(), v.to_string())).collect()
}

fn context(pairs: &[(&str, &str)]) -> Context {
    Context::from_pairs(owned(pairs))
}

fn listed(frames: &[Context]) -> Vec<Vec<(String, String)>> {
    frames.iter().map(|c| c.to_pairs()).collect()
}

#[test]
fn new_stack_has_no_frames() {
    let s = FrameStack::new();
    assert!(s.is_empty());
    assert_eq!(s.depth(), 0);
    assert_eq!(s.lookup("x"), None);
    assert!(s.current_merged().is_empty());
    assert!(s.frames().is_empty());
}

#[test]
fn push_then_lookup_returns_the_pushed_value() {
    let mut s = FrameStack::new();
    s.push(context(&[("a", "1"), ("b", "2")]));
    assert_eq!(s.depth(), 1);
    assert_eq!(s.lookup("a"), Some("1".to_string()));
    assert_eq!(s.lookup("b"), Some("2".to_string()));
    assert_eq!(s.lookup("c"), None);
}

#[test]
fn push_then_pop_restores_the_prior_value() {
    let mut s = FrameStack::new();
    s.push(context(&[("a", "old")]));
    let before = listed(&s.frames());
    s.push(context(&[("a", "new"), ("b", "2")]));
    assert_eq!(s.lookup("a"), Some("new".to_string()));
    assert_eq!(s.lookup("b"), Some("2".to_string()));
    let popped = s.pop();
    assert_eq!(popped.map(|c| c.to_pairs()), Some(owned(&[("a", "new"), ("b", "2")])));
    assert_eq!(s.lookup("a"), Some("old".to_string()));
    assert_eq!(s.lookup("b"), None);
    assert_eq!(listed(&s.frames()), before);
}

#[test]
fn pop_on_empty_stack_does_nothing() {
    let mut s = FrameStack::new();
    assert!(s.pop().is_none());
    assert!(s.pop().is_none());
    assert!(s.is_empty());
    s.push(context(&[("a", "1")]));
    assert!(s.pop().is_some());
    assert!(s.pop().is_none());
    assert_eq!(s.depth(), 0);
}

#[test]
fn lookup_prefers_the_innermost_frame() {
    let mut s = FrameStack::new();
    s.push(context(&[("x", "1"), ("only_outer", "o")]));
    s.push(context(&[("y", "mid")]));
    s.push(context(&[("x", "3")]));
    assert_eq!(s.lookup("x"), Some("3".to_string()));
    assert_eq!(s.lookup("y"), Some("mid".to_string()));
    assert_eq!(s.lookup("only_outer"), Some("o".to_string()));
}

#[test]
fn current_merged_folds_bottom_to_top() {
    let mut s = FrameStack::new();
    s.push(context(&[("a", "1"), ("b", "2")]));
    s.push(context(&[("b", "20"), ("c", "30")]));
    s.push(context(&[("a", "100")]));
    assert_eq!(
        s.current_merged().to_pairs(),
        owned(&[("a", "100"), ("b", "20"), ("c", "30")])
    );
}

#[test]
fn current_merged_agrees_with_lookup() {
    let mut s = FrameStack::new();
    s.push(context(&[("a", "1"), ("b", "2")]));
    s.push(context(&[("b", "20"), ("c", "30")]));
    let merged = s.current_merged();
    for key in ["a", "b", "c", "d"] {
        assert_eq!(merged.get(key).cloned(), s.lookup(key));
    }
}

#[test]
fn frames_lists_copies_oldest_first() {
    let mut s = FrameStack::new();
    s.push(context(&[("a", "1")]));
    s.push(Context::new());
    s.push(context(&[("b", "2")]));
    assert_eq!(
        listed(&s.frames()),
        vec![owned(&[("a", "1")]), owned(&[]), owned(&[("b", "2")])]
    );
    assert_eq!(s.depth(), 3);
}

#[test]
fn frame_at_reads_the_frames_oldest_first() {
    let mut s = FrameStack::new();
    s.push(context(&[("a", "1")]));
    s.push(context(&[("b", "2")]));
    assert_eq!(s.frame_at(0).map(|c| c.to_pairs()), Some(owned(&[("a", "1")])));
    assert_eq!(s.frame_at(1).map(|c| c.to_pairs()), Some(owned(&[("b", "2")])));
    assert!(s.frame_at(2).is_none());
    assert!(FrameStack::new().frame_at(0).is_none());
}
