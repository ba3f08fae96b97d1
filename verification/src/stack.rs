//! A stack of context frames: one per scope that is active, the innermost last.

use vstd::prelude::*;
use crate::context::Context;
use crate::fields::{
    Field, distinct_keys, fill_missing, has_key, value_of, overlay, lemma_fill_missing_distinct,
    lemma_value_of_fill_missing, lemma_value_of_overlay,
};

verus! {

/// The value that the innermost frame with the key `key` gives it: the frames are
/// scanned from the last to the first, and the first match counts.
pub open spec fn lookup(frames: Seq<Seq<Field>>, key: Seq<char>) -> Option<Seq<char>>
    decreases frames.len(),
{
    if frames.len() == 0 {
        None
    } else if value_of(frames.last(), key).is_some() {
        value_of(frames.last(), key)
    } else {
        lookup(frames.drop_last(), key)
    }
}

/// The frames folded from the first to the last, each frame overwriting the keys that
/// earlier frames set.
pub open spec fn merged(frames: Seq<Seq<Field>>) -> Seq<Field>
    decreases frames.len(),
{
    if frames.len() == 0 {
        Seq::empty()
    } else {
        overlay(merged(frames.drop_last()), frames.last())
    }
}

/// What a walk over the frames from the innermost to the outermost adds to `seen`:
/// each field whose key was not met before, in the order of the walk.
pub open spec fn walk(seen: Seq<Field>, frames: Seq<Seq<Field>>) -> Seq<Field>
    decreases frames.len(),
{
    if frames.len() == 0 {
        seen
    } else {
        walk(fill_missing(seen, frames.last()), frames.drop_last())
    }
}

/// No frame holds a key twice.
pub open spec fn frames_distinct(frames: Seq<Seq<Field>>) -> bool {
    forall|i: int| 0 <= i < frames.len() ==> distinct_keys(#[trigger] frames[i])
}

/// What a lookup returns after a frame was pushed: the value of the new frame where it
/// has the key, what the lookup returned before where it has not.
pub proof fn lemma_lookup_push(frames: Seq<Seq<Field>>, frame: Seq<Field>, key: Seq<char>)
    ensures
        lookup(frames.push(frame), key) == if has_key(frame, key) {
            value_of(frame, key)
        } else {
            lookup(frames, key)
        },
{
    assert(frames.push(frame).drop_last() =~= frames);
}

/// A lookup returns the value of the innermost frame that has the key: of frame `j`,
/// where it has the key and no frame behind it has.
pub proof fn lemma_lookup_innermost(frames: Seq<Seq<Field>>, key: Seq<char>, j: int)
    requires
        0 <= j < frames.len(),
        has_key(frames[j], key),
        forall|i: int| j < i < frames.len() ==> !has_key(frames[i], key),
    ensures
        lookup(frames, key) == value_of(frames[j], key),
    decreases frames.len(),
{
    if j < frames.len() - 1 {
        assert(!has_key(frames[frames.len() - 1], key));
        lemma_lookup_innermost(frames.drop_last(), key, j);
    }
}

/// The merged context gives every key the value that a lookup returns for it: merging
/// and looking up follow one order of precedence.
pub proof fn lemma_merged_lookup(frames: Seq<Seq<Field>>, key: Seq<char>)
    ensures
        value_of(merged(frames), key) == lookup(frames, key),
    decreases frames.len(),
{
    if frames.len() > 0 {
        lemma_merged_lookup(frames.drop_last(), key);
        lemma_value_of_overlay(merged(frames.drop_last()), frames.last(), key);
    }
}

/// A walk gives every key the value that it had before, and every other key the value
/// that a lookup returns for it: the first frame met is the innermost.
pub proof fn lemma_value_of_walk(seen: Seq<Field>, frames: Seq<Seq<Field>>, key: Seq<char>)
    requires
        frames_distinct(frames),
    ensures
        value_of(walk(seen, frames), key) == if has_key(seen, key) {
            value_of(seen, key)
        } else {
            lookup(frames, key)
        },
    decreases frames.len(),
{
    if frames.len() > 0 {
        assert(distinct_keys(frames[frames.len() - 1]));
        assert forall|i: int| 0 <= i < frames.drop_last().len() implies distinct_keys(
            #[trigger] frames.drop_last()[i],
        ) by {
            assert(frames.drop_last()[i] == frames[i]);
        }
        lemma_value_of_fill_missing(seen, frames.last(), key);
        lemma_value_of_walk(fill_missing(seen, frames.last()), frames.drop_last(), key);
    }
}

/// A walk keeps the keys met unique.
pub proof fn lemma_walk_distinct(seen: Seq<Field>, frames: Seq<Seq<Field>>)
    requires
        distinct_keys(seen),
    ensures
        distinct_keys(walk(seen, frames)),
    decreases frames.len(),
{
    if frames.len() > 0 {
        lemma_fill_missing_distinct(seen, frames.last());
        lemma_walk_distinct(fill_missing(seen, frames.last()), frames.drop_last());
    }
}

/// The frames of `contexts`, as contracts speak of them.
pub open spec fn frames_view(contexts: Seq<Context>) -> Seq<Seq<Field>> {
    contexts.map_values(|c: Context| c@)
}

/// An ordered sequence of frames, oldest first. The last frame is the innermost and
/// has the highest priority in a lookup.
pub struct FrameStack {
    frames: Vec<Context>,
}

impl View for FrameStack {
    type V = Seq<Seq<Field>>;

    closed spec fn view(&self) -> Seq<Seq<Field>> {
        frames_view(self.frames@)
    }
}

impl FrameStack {
    /// A stack without frames.
    pub fn new() -> (r: FrameStack)
        ensures
            r@ == Seq::<Seq<Field>>::empty(),
    {
        let r = FrameStack { frames: Vec::new() };
        assert(r@ =~= Seq::<Seq<Field>>::empty());
        r
    }

    /// The number of frames.
    pub fn depth(&self) -> (n: usize)
        ensures
            n == self@.len(),
    {
        self.frames.len()
    }

    /// Whether the stack has no frame.
    pub fn is_empty(&self) -> (r: bool)
        ensures
            r == (self@.len() == 0),
    {
        self.frames.len() == 0
    }

    /// Makes `context` the innermost frame.
    pub fn push(&mut self, context: Context)
        ensures
            final(self)@ == old(self)@.push(context@),
    {
        self.frames.push(context);
        assert(self@ =~= old(self)@.push(context@));
    }

    /// Takes the innermost frame off and returns it. On a stack without frames this
    /// does nothing.
    pub fn pop(&mut self) -> (r: Option<Context>)
        ensures
            match r {
                Some(c) => old(self)@.len() > 0 && c@ == old(self)@.last() && final(self)@
                    == old(self)@.drop_last(),
                None => old(self)@.len() == 0 && final(self)@ == old(self)@,
            },
    {
        let r = self.frames.pop();
        assert(self@ =~= if old(self)@.len() > 0 {
            old(self)@.drop_last()
        } else {
            old(self)@
        });
        r
    }

    /// The value of `key` in the innermost frame that has it.
    pub fn lookup(&self, key: &str) -> (r: Option<String>)
        ensures
            match r {
                Some(v) => lookup(self@, key@) == Some(v@),
                None => lookup(self@, key@).is_none(),
            },
    {
        let mut i: usize = self.frames.len();
        assert(self@.take(i as int) =~= self@);
        while i > 0
            invariant
                i <= self.frames.len(),
                lookup(self@, key@) == lookup(self@.take(i as int), key@),
            decreases i,
        {
            proof {
                assert(self@.take(i as int).drop_last() =~= self@.take(i - 1));
            }
            i -= 1;
            match self.frames[i].get(key) {
                Some(v) => {
                    return Some(v.clone());
                },
                None => {},
            }
        }
        None
    }

    /// One context that holds, for every key of any frame, the value of the innermost
    /// frame that has the key.
    pub fn current_merged(&self) -> (r: Context)
        ensures
            r@ == merged(self@),
    {
        let mut r = Context::new();
        let mut i: usize = 0;
        while i < self.frames.len()
            invariant
                i <= self.frames.len(),
                r@ == merged(self@.take(i as int)),
            decreases self.frames.len() - i,
        {
            proof {
                assert(self@.take(i + 1).drop_last() =~= self@.take(i as int));
            }
            r.extend(&self.frames[i]);
            i += 1;
        }
        assert(self@.take(i as int) =~= self@);
        r
    }

    /// The frame at position `i`, counted from the oldest, if there is one.
    pub fn frame_at(&self, i: usize) -> (r: Option<&Context>)
        ensures
            match r {
                Some(c) => i < self@.len() && c@ == self@[i as int],
                None => i >= self@.len(),
            },
    {
        if i < self.frames.len() {
            Some(&self.frames[i])
        } else {
            None
        }
    }

    /// Copies of the frames, oldest first.
    pub fn frames(&self) -> (r: Vec<Context>)
        ensures
            frames_view(r@) == self@,
    {
        let mut r: Vec<Context> = Vec::new();
        let mut i: usize = 0;
        while i < self.frames.len()
            invariant
                i <= self.frames.len(),
                frames_view(r@) == self@.take(i as int),
            decreases self.frames.len() - i,
        {
            let ghost before = frames_view(r@);
            r.push(self.frames[i].clone());
            assert(frames_view(r@) =~= before.push(self@[i as int]));
            assert(self@.take(i + 1) =~= self@.take(i as int).push(self@[i as int]));
            i += 1;
        }
        assert(self@.take(i as int) =~= self@);
        r
    }
}

} // verus!
