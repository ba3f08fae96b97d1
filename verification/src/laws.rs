//! What holds of the engine across several operations.
//!
//! Each law is stated over `EngineModel` and the functions that the contracts of
//! `ContextEngine` and of the guards use, so it applies to every run of them.

use vstd::prelude::*;
use crate::context::Context;
use crate::engine::{ContextEngine, EngineModel};
use crate::fields::{
    Field, distinct_keys, fill_missing, has_key, overlay, value_of, without_key,
    lemma_fill_missing_distinct, lemma_overlay_distinct, lemma_sorted_canonical,
    lemma_value_of_fill_missing, lemma_value_of_overlay, lemma_value_of_upsert,
    lemma_value_of_without_key,
};
use crate::global::StoreModel;
use crate::render::function_key;
use crate::stack::{
    frames_distinct, lookup, merged, walk, lemma_lookup_innermost, lemma_lookup_push,
    lemma_merged_lookup, lemma_value_of_walk, lemma_walk_distinct,
};

verus! {

/// One step on the stacks of an engine.
pub enum StackStep {
    /// A frame is pushed on the thread-scoped stack.
    PushSync(Seq<Field>),
    /// A frame is pushed on the task-scoped stack.
    PushAsync(Seq<Field>),
    /// The guard of a frame of the thread-scoped stack is released.
    ReleaseSync,
    /// The guard of a frame of the task-scoped stack is released.
    ReleaseAsync,
}

/// The engine after the steps of `steps` were taken in turn.
pub open spec fn after_steps(engine: EngineModel, steps: Seq<StackStep>) -> EngineModel
    decreases steps.len(),
{
    if steps.len() == 0 {
        engine
    } else {
        let before = after_steps(engine, steps.drop_last());
        match steps.last() {
            StackStep::PushSync(frame) => before.push_sync(frame),
            StackStep::PushAsync(frame) => before.push_async(frame),
            StackStep::ReleaseSync => before.pop_sync(),
            StackStep::ReleaseAsync => before.pop_async(),
        }
    }
}

/// The engine that a new unit of work starts with when nothing links it to the scope
/// that spawned it: two empty stacks over the store of the process.
pub open spec fn unrelated_task(store: StoreModel) -> EngineModel {
    EngineModel { async_frames: Some(Seq::empty()), sync_frames: Seq::empty(), global: store }
}

/// Pushing a frame on the thread-scoped stack and releasing its guard leaves the
/// engine as it was, so every key resolves to what it resolved to before.
pub proof fn push_context_then_release_restores(engine: EngineModel, frame: Seq<Field>)
    ensures
        engine.push_sync(frame).pop_sync() == engine,
        forall|key: Seq<char>|
            engine.push_sync(frame).pop_sync().resolve(key) == engine.resolve(key),
{
    assert(engine.sync_frames.push(frame).drop_last() =~= engine.sync_frames);
}

/// Pushing a frame on the task-scoped stack and releasing its guard leaves the engine
/// as it was, so every key resolves to what it resolved to before.
pub proof fn push_async_context_then_release_restores(engine: EngineModel, frame: Seq<Field>)
    ensures
        engine.push_async(frame).pop_async() == engine,
        forall|key: Seq<char>|
            engine.push_async(frame).pop_async().resolve(key) == engine.resolve(key),
{
    match engine.async_frames {
        Some(frames) => {
            assert(frames.push(frame).drop_last() =~= frames);
        },
        None => {},
    }
}

/// Right after a frame was pushed on the task-scoped stack, every key of the frame
/// resolves to the value that the frame gives it. The engine must be able to reach
/// its task-local storage: without it nothing is pushed.
pub proof fn pushed_async_frame_resolves(engine: EngineModel, frame: Seq<Field>, key: Seq<char>)
    requires
        engine.async_frames.is_some(),
        has_key(frame, key),
    ensures
        engine.push_async(frame).resolve(key) == value_of(frame, key),
{
    lemma_lookup_push(engine.async_frames.unwrap(), frame, key);
}

/// Right after a frame was pushed on the thread-scoped stack, every key of the frame
/// that the task-scoped stack does not define resolves to the value that the frame
/// gives it. A key that the task-scoped stack defines keeps resolving there.
pub proof fn pushed_sync_frame_resolves(engine: EngineModel, frame: Seq<Field>, key: Seq<char>)
    requires
        has_key(frame, key),
    ensures
        lookup(engine.async_visible(), key).is_none() ==> engine.push_sync(frame).resolve(key)
            == value_of(frame, key),
        lookup(engine.async_visible(), key).is_some() ==> engine.push_sync(frame).resolve(key)
            == lookup(engine.async_visible(), key),
{
    lemma_lookup_push(engine.sync_frames, frame, key);
}

/// The effective context gives every key the value that the key resolves to: the
/// innermost frame of the task-scoped stack that has the key, else the innermost
/// frame of the thread-scoped stack that has it, else the store.
pub proof fn effective_context_resolves(engine: EngineModel, key: Seq<char>)
    ensures
        value_of(engine.effective(), key) == engine.resolve(key),
{
    let lower = overlay(engine.global.visible(), merged(engine.sync_frames));
    lemma_value_of_overlay(lower, merged(engine.async_visible()), key);
    lemma_value_of_overlay(engine.global.visible(), merged(engine.sync_frames), key);
    lemma_merged_lookup(engine.async_visible(), key);
    lemma_merged_lookup(engine.sync_frames, key);
}

/// Of the frames of the task-scoped stack that define a key, the innermost gives the
/// effective context its value: the frame that was pushed last wins.
pub proof fn innermost_async_frame_wins(engine: EngineModel, key: Seq<char>, j: int)
    requires
        0 <= j < engine.async_visible().len(),
        has_key(engine.async_visible()[j], key),
        forall|i: int|
            j < i < engine.async_visible().len() ==> !has_key(engine.async_visible()[i], key),
    ensures
        value_of(engine.effective(), key) == value_of(engine.async_visible()[j], key),
{
    effective_context_resolves(engine, key);
    lemma_lookup_innermost(engine.async_visible(), key, j);
}

/// Of the frames of the thread-scoped stack that define a key which the task-scoped
/// stack does not define, the innermost gives the effective context its value: the
/// frame that was pushed last wins.
pub proof fn innermost_sync_frame_wins(engine: EngineModel, key: Seq<char>, j: int)
    requires
        lookup(engine.async_visible(), key).is_none(),
        0 <= j < engine.sync_frames.len(),
        has_key(engine.sync_frames[j], key),
        forall|i: int| j < i < engine.sync_frames.len() ==> !has_key(engine.sync_frames[i], key),
    ensures
        value_of(engine.effective(), key) == value_of(engine.sync_frames[j], key),
{
    effective_context_resolves(engine, key);
    lemma_lookup_innermost(engine.sync_frames, key, j);
}

/// A guard that is released while its frame is the innermost pops that very frame:
/// with `depth` the depth that the guard recorded at its push, the frames below it
/// stay and nothing else goes.
pub proof fn innermost_guard_pops_its_own_frame(engine: EngineModel, depth: nat)
    requires
        depth > 0,
    ensures
        engine.sync_frames.len() == depth ==> engine.pop_sync().sync_frames
            == engine.sync_frames.take(depth - 1),
        engine.async_visible().len() == depth ==> engine.pop_async().async_visible()
            == engine.async_visible().take(depth - 1),
{
    if engine.sync_frames.len() == depth {
        assert(engine.sync_frames.drop_last() =~= engine.sync_frames.take(depth - 1));
    }
    if engine.async_visible().len() == depth {
        assert(engine.async_visible().drop_last() =~= engine.async_visible().take(depth - 1));
    }
}

/// After a capture within one boundary each stack alone resolves every captured key
/// to its captured value, so code that asks only one of the stacks still finds the
/// whole inherited context. For the task-scoped stack this needs task-local storage.
pub proof fn capture_fills_both_stacks(engine: EngineModel, key: Seq<char>)
    requires
        has_key(engine.local(), key),
    ensures
        lookup(engine.capture_local().sync_frames, key) == value_of(engine.local(), key),
        engine.async_frames.is_some() ==> lookup(engine.capture_local().async_visible(), key)
            == value_of(engine.local(), key),
{
    lemma_lookup_push(engine.sync_frames, engine.local(), key);
    lemma_lookup_push(engine.async_visible(), engine.local(), key);
}

/// Releasing the guard of a capture takes both captured frames off again: the stacks
/// are as they were before the capture, and the store keeps what was published.
pub proof fn capture_then_release_restores_stacks(engine: EngineModel)
    ensures
        engine.capture_local().pop_sync().pop_async() == engine,
        engine.capture_union().pop_sync().pop_async() == (EngineModel {
            global: engine.global.publish(engine.union()),
            ..engine
        }),
{
    assert(engine.sync_frames.push(engine.local()).drop_last() =~= engine.sync_frames);
    assert(engine.sync_frames.push(engine.union()).drop_last() =~= engine.sync_frames);
    match engine.async_frames {
        Some(frames) => {
            assert(frames.push(engine.local()).drop_last() =~= frames);
            assert(frames.push(engine.union()).drop_last() =~= frames);
        },
        None => {},
    }
}

/// No step on the stacks touches the store.
pub proof fn stack_steps_keep_store(engine: EngineModel, steps: Seq<StackStep>)
    ensures
        after_steps(engine, steps).global == engine.global,
    decreases steps.len(),
{
    if steps.len() > 0 {
        stack_steps_keep_store(engine, steps.drop_last());
    }
}

/// What a capture for an unlinked boundary published stays in the store whatever
/// happens to the stacks afterwards: after any pushes and releases, the store still
/// gives every captured key the value that was captured. The store must be usable: a
/// poisoned store takes no write.
pub proof fn published_context_outlives_frames(
    engine: EngineModel,
    steps: Seq<StackStep>,
    key: Seq<char>,
)
    requires
        !engine.global.poisoned,
        has_key(engine.union(), key),
    ensures
        value_of(after_steps(engine.capture_union(), steps).global.visible(), key) == value_of(
            engine.union(),
            key,
        ),
{
    stack_steps_keep_store(engine.capture_union(), steps);
    lemma_value_of_overlay(engine.global.fields, engine.union(), key);
}

/// After a capture for an unlinked boundary, a unit of work that starts with empty
/// stacks and asks only the store finds every key that the effective context held
/// when the capture was made. The store must be usable: a poisoned store takes no
/// write.
pub proof fn capture_reaches_unrelated_task(engine: EngineModel, key: Seq<char>)
    requires
        !engine.global.poisoned,
        has_key(engine.effective(), key),
    ensures
        has_key(engine.capture_union().global.visible(), key),
        unrelated_task(engine.capture_union().global).resolve(key).is_some(),
{
    let lower = overlay(engine.global.visible(), merged(engine.sync_frames));
    lemma_value_of_overlay(lower, merged(engine.async_visible()), key);
    lemma_value_of_overlay(engine.global.visible(), merged(engine.sync_frames), key);
    lemma_value_of_overlay(merged(engine.async_visible()), merged(engine.sync_frames), key);
    lemma_value_of_overlay(engine.global.fields, engine.union(), key);
}

/// The store never loses a key: whatever is set or published, every key that the
/// store held is still there.
pub proof fn store_keeps_its_keys(
    store: StoreModel,
    key: Seq<char>,
    value: Seq<char>,
    fields: Seq<Field>,
    held: Seq<char>,
)
    requires
        has_key(store.fields, held),
    ensures
        has_key(store.set(key, value).fields, held),
        has_key(store.publish(fields).fields, held),
{
    lemma_value_of_upsert(store.fields, key, value, held);
    lemma_value_of_overlay(store.fields, fields, held);
}

/// Reading the effective context is repeatable: whatever two reads of one engine
/// return, with no push or pop between them, the two contexts hold the same fields
/// in the same order.
pub proof fn effective_context_repeats(engine: ContextEngine, first: Context, second: Context)
    requires
        call_ensures(ContextEngine::effective_context, (&engine,), first),
        call_ensures(ContextEngine::effective_context, (&engine,), second),
    ensures
        first@ == second@,
{
}

/// The inherited fields are the effective context without the function name: every
/// other key has the value that it resolves to, all three layers taken together.
/// Where the entries of the store are unique, as those of every `GlobalContextStore`
/// are, the function name is gone and no key stands twice.
pub proof fn inherited_fields_resolve(engine: EngineModel, key: Seq<char>)
    ensures
        key != function_key() ==> value_of(engine.inherited_fields(), key) == engine.resolve(key),
        distinct_keys(engine.global.fields) ==> !has_key(
            engine.inherited_fields(),
            function_key(),
        ),
        distinct_keys(engine.global.fields) ==> distinct_keys(engine.inherited_fields()),
{
    if distinct_keys(engine.global.fields) {
        effective_context_is_deduplicated(engine);
    }
    lemma_value_of_without_key(engine.effective(), function_key(), key);
    effective_context_resolves(engine, key);
}

/// The effective context holds no key twice. The entries of the store must be unique,
/// as those of every `GlobalContextStore` are.
pub proof fn effective_context_is_deduplicated(engine: EngineModel)
    requires
        distinct_keys(engine.global.fields),
    ensures
        distinct_keys(engine.effective()),
{
    let lower = overlay(engine.global.visible(), merged(engine.sync_frames));
    lemma_overlay_distinct(engine.global.visible(), merged(engine.sync_frames));
    lemma_overlay_distinct(lower, merged(engine.async_visible()));
}

/// The parts of the flat rendering hold no key twice and never the function name,
/// whatever the layers hold.
pub proof fn inherited_parts_are_deduplicated(engine: EngineModel)
    ensures
        distinct_keys(engine.inherited_parts()),
        !has_key(engine.inherited_parts(), function_key()),
{
    let task = walk(Seq::empty(), engine.async_visible());
    let local = walk(task, engine.sync_frames);
    let all = fill_missing(local, engine.global.visible());
    lemma_walk_distinct(Seq::empty(), engine.async_visible());
    lemma_walk_distinct(task, engine.sync_frames);
    lemma_fill_missing_distinct(local, engine.global.visible());
    lemma_value_of_without_key(all, function_key(), function_key());
}

/// The flat rendering shows the effective context: every key but the function name
/// stands in its parts with the value that it resolves to. No frame and no store may
/// hold a key twice, as no `Context` does.
pub proof fn inherited_parts_resolve(engine: EngineModel, key: Seq<char>)
    requires
        frames_distinct(engine.async_visible()),
        frames_distinct(engine.sync_frames),
        distinct_keys(engine.global.fields),
        key != function_key(),
    ensures
        value_of(engine.inherited_parts(), key) == engine.resolve(key),
{
    let task = walk(Seq::empty(), engine.async_visible());
    let local = walk(task, engine.sync_frames);
    let all = fill_missing(local, engine.global.visible());
    lemma_value_of_walk(Seq::empty(), engine.async_visible(), key);
    lemma_value_of_walk(task, engine.sync_frames, key);
    lemma_value_of_fill_missing(local, engine.global.visible(), key);
    lemma_walk_distinct(Seq::empty(), engine.async_visible());
    lemma_walk_distinct(task, engine.sync_frames);
    lemma_fill_missing_distinct(local, engine.global.visible());
    lemma_value_of_without_key(all, function_key(), key);
}

/// A context is fixed by the mapping that it holds: two contexts that give every key
/// the same value have the same view, in whatever order their keys were set. So
/// layers that are equal as mappings render alike.
pub proof fn equal_mappings_have_equal_views(a: Context, b: Context)
    requires
        a.keys_ascend(),
        b.keys_ascend(),
        forall|key: Seq<char>| value_of(a@, key) == value_of(b@, key),
    ensures
        a@ == b@,
{
    lemma_sorted_canonical(a@, b@);
}

} // verus!
