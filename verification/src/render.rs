//! The flat rendering of context, for sinks that take one string.
//!
//! The parts of the rendering are gathered in a walk from the most specific layer to
//! the least specific one. Each key appears once, where the walk meets it first.

use vstd::prelude::*;
use vstd::string::StringExecFns;
use crate::context::{Context, find, pairs_view};
use crate::fields::{Field, fill_missing, without_key};
use crate::stack::{FrameStack, walk};

verus! {

/// The key under which a scope records the name of its function. The name is tracked
/// by other means, so the rendering leaves this key out.
pub open spec fn function_key() -> Seq<char> {
    seq!['f', 'u', 'n', 'c', 't', 'i', 'o', 'n']
}

/// One field as text: the key, `=`, the value.
pub open spec fn assignment(field: Field) -> Seq<char> {
    field.0 + seq!['='] + field.1
}

/// The fields as text, in order, with a comma between two fields.
pub open spec fn render(fields: Seq<Field>) -> Seq<char>
    decreases fields.len(),
{
    if fields.len() == 0 {
        Seq::empty()
    } else if fields.len() == 1 {
        assignment(fields[0])
    } else {
        render(fields.drop_last()) + seq![','] + assignment(fields.last())
    }
}

/// The key that the rendering leaves out.
pub fn function_key_name() -> (r: &'static str)
    ensures
        r@ == function_key(),
{
    proof {
        reveal_strlit("function");
    }
    let r = "function";
    assert(r@ =~= function_key());
    r
}

/// The pairs as `key=value`, in order, joined by commas.
pub fn render_pairs(pairs: &Vec<(String, String)>) -> (r: String)
    ensures
        r@ == render(pairs_view(pairs@)),
{
    proof {
        reveal_strlit("=");
        reveal_strlit(",");
    }
    let ghost fields = pairs_view(pairs@);
    let mut r = String::new();
    let mut i: usize = 0;
    while i < pairs.len()
        invariant
            i <= pairs.len(),
            fields == pairs_view(pairs@),
            r@ == render(fields.take(i as int)),
            "="@ == seq!['='],
            ","@ == seq![','],
        decreases pairs.len() - i,
    {
        proof {
            assert(fields.take(i + 1).drop_last() =~= fields.take(i as int));
        }
        if i > 0 {
            r.append(",");
        }
        r.append(pairs[i].0.as_str());
        r.append("=");
        r.append(pairs[i].1.as_str());
        assert(r@ =~= render(fields.take(i + 1)));
        i += 1;
    }
    assert(fields.take(i as int) =~= fields);
    r
}

/// Adds to `parts` the fields of `context` whose keys `parts` does not hold yet, in
/// the order of `context`.
pub fn absorb(parts: &mut Vec<(String, String)>, context: &Context)
    ensures
        pairs_view(final(parts)@) == fill_missing(pairs_view(old(parts)@), context@),
{
    let mut i: usize = 0;
    while i < context.len()
        invariant
            i <= context@.len(),
            pairs_view(parts@) == fill_missing(pairs_view(old(parts)@), context@.take(i as int)),
        decreases context@.len() - i,
    {
        proof {
            assert(context@.take(i + 1).drop_last() =~= context@.take(i as int));
        }
        match context.field_at(i) {
            Some(field) => {
                if find(parts, field.0.as_str()).is_none() {
                    let ghost before = pairs_view(parts@);
                    parts.push((field.0.clone(), field.1.clone()));
                    assert(pairs_view(parts@) =~= before.push(context@[i as int]));
                }
            },
            None => {},
        }
        i += 1;
    }
    assert(context@.take(i as int) =~= context@);
}

/// Adds to `parts` what a walk over the frames of `stack` meets, from the innermost
/// frame to the outermost.
pub fn absorb_frames(parts: &mut Vec<(String, String)>, stack: &FrameStack)
    ensures
        pairs_view(final(parts)@) == walk(pairs_view(old(parts)@), stack@),
{
    let mut i: usize = stack.depth();
    assert(stack@.take(i as int) =~= stack@);
    while i > 0
        invariant
            i <= stack@.len(),
            walk(pairs_view(parts@), stack@.take(i as int)) == walk(
                pairs_view(old(parts)@),
                stack@,
            ),
        decreases i,
    {
        proof {
            assert(stack@.take(i as int).drop_last() =~= stack@.take(i - 1));
        }
        i -= 1;
        match stack.frame_at(i) {
            Some(frame) => {
                absorb(parts, frame);
            },
            None => {},
        }
    }
}

/// Takes the pair with the key `key` out of `parts`, if there is one.
pub fn drop_key(parts: &mut Vec<(String, String)>, key: &str)
    ensures
        pairs_view(final(parts)@) == without_key(pairs_view(old(parts)@), key@),
{
    match find(parts, key) {
        Some(i) => {
            parts.remove(i);
            assert(pairs_view(parts@) =~= without_key(pairs_view(old(parts)@), key@));
        },
        None => {},
    }
}

} // verus!
