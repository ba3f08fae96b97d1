use log_args_runtime::context::Context;
use log_args_runtime::render::{
    absorb, absorb_frames, drop_key, function_key_name, render_pairs,
};
use log_args_runtime::stack::FrameStack;

fn owned(pairs: &[(&str, &str)]) -> Vec<(String, String)> {
    pairs.iter().map(|(k, v)| (k.to_string(), v.to_string())).collect()
}

fn context(pairs: &[(&str, &str)]) -> Context {
    Context::from_pairs(pairs.iter().map(|(k, v)| (k.to_string(), v.to_string())).collect())
}

#[test]
fn empty_context_renders_as_empty_string() {
    assert_eq!(render_pairs(&Context::new().to_pairs()), "");
}

#[test]
fn one_field_renders_without_comma() {
    assert_eq!(render_pairs(&context(&[("tenant_id", "acme")]).to_pairs()), "tenant_id=acme");
}

#[test]
fn context_renders_in_ascending_order_with_commas() {
    let c = context(&[("tenant_id", "acme"), ("session_id", "s1"), ("n", "3")]);
    assert_eq!(render_pairs(&c.to_pairs()), "n=3,session_id=s1,tenant_id=acme");
}

#[test]
fn pairs_render_in_the_order_given() {
    let pairs = owned(&[("tenant_id", "acme"), ("session_id", "s1"), ("n", "3")]);
    assert_eq!(render_pairs(&pairs), "tenant_id=acme,session_id=s1,n=3");
    assert_eq!(render_pairs(&owned(&[("a", "1")])), "a=1");
    assert_eq!(render_pairs(&owned(&[])), "");
}

#[test]
fn absorb_adds_only_keys_not_met_before() {
    let mut parts = owned(&[("x", "kept"), ("b", "kept")]);
    absorb(&mut parts, &context(&[("c", "3"), ("b", "2"), ("a", "1")]));
    assert_eq!(parts, owned(&[("x", "kept"), ("b", "kept"), ("a", "1"), ("c", "3")]));
    absorb(&mut parts, &Context::new());
    assert_eq!(parts.len(), 4);
}

#[test]
fn absorb_frames_walks_from_the_innermost_frame() {
    let mut stack = FrameStack::new();
    stack.push(context(&[("user", "bob"), ("x", "outer")]));
    stack.push(context(&[("x", "inner"), ("user_id", "5")]));
    let mut parts = owned(&[]);
    absorb_frames(&mut parts, &stack);
    assert_eq!(parts, owned(&[("user_id", "5"), ("x", "inner"), ("user", "bob")]));
    let mut seen = owned(&[("x", "first")]);
    absorb_frames(&mut seen, &stack);
    assert_eq!(seen, owned(&[("x", "first"), ("user_id", "5"), ("user", "bob")]));
}

#[test]
fn drop_key_takes_out_one_pair() {
    let mut parts = owned(&[("b", "2"), ("function", "f"), ("a", "1")]);
    drop_key(&mut parts, "function");
    assert_eq!(parts, owned(&[("b", "2"), ("a", "1")]));
    drop_key(&mut parts, "absent");
    assert_eq!(parts, owned(&[("b", "2"), ("a", "1")]));
}

#[test]
fn empty_keys_and_values_keep_their_separators() {
    assert_eq!(render_pairs(&context(&[("a", ""), ("", "b")]).to_pairs()), "=b,a=");
}

#[test]
fn non_ascii_text_is_rendered_as_it_is() {
    assert_eq!(
        render_pairs(&context(&[("clé", "värde"), ("日本", "語")]).to_pairs()),
        "clé=värde,日本=語"
    );
}

#[test]
fn the_function_key_is_named_function() {
    assert_eq!(function_key_name(), "function");
}
