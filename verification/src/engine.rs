//! The engine: two frame stacks and the process-wide store, read as one context.
//!
//! A key is resolved in the task-scoped stack first, then in the thread-scoped stack,
//! then in the store. Within a stack the innermost frame wins.

use vstd::prelude::*;
use crate::context::Context;
use crate::context::pairs_view;
use crate::fields::{Field, fill_missing, has_key, value_of, overlay, without_key};
use crate::global::{GlobalContextStore, StoreModel};
use crate::guard::{AsyncContextGuard, CaptureGuard, ContextGuard};
use crate::render::{
    absorb, absorb_frames, drop_key, function_key, function_key_name, render, render_pairs,
};
use crate::stack::{FrameStack, frames_view, lookup, merged, walk};

verus! {

/// The state of an engine, as contracts speak of it.
pub struct EngineModel {
    /// The frames of the task-scoped stack, oldest first; `None` where the current
    /// execution context has no task-local storage.
    pub async_frames: Option<Seq<Seq<Field>>>,
    /// The frames of the thread-scoped stack, oldest first.
    pub sync_frames: Seq<Seq<Field>>,
    /// The process-wide store.
    pub global: StoreModel,
}

impl EngineModel {
    /// The frames of the task-scoped stack that readers see: none where the storage
    /// cannot be reached.
    pub open spec fn async_visible(self) -> Seq<Seq<Field>> {
        match self.async_frames {
            Some(frames) => frames,
            None => Seq::empty(),
        }
    }

    /// The value that `key` resolves to: that of the task-scoped stack, else that of
    /// the thread-scoped stack, else that of the store.
    pub open spec fn resolve(self, key: Seq<char>) -> Option<Seq<char>> {
        if lookup(self.async_visible(), key).is_some() {
            lookup(self.async_visible(), key)
        } else if lookup(self.sync_frames, key).is_some() {
            lookup(self.sync_frames, key)
        } else {
            value_of(self.global.visible(), key)
        }
    }

    /// Both stacks merged, the task-scoped stack winning: the effective context
    /// without what the store adds.
    pub open spec fn local(self) -> Seq<Field> {
        overlay(merged(self.sync_frames), merged(self.async_visible()))
    }

    /// All three layers merged: the store, overwritten by the thread-scoped stack,
    /// overwritten by the task-scoped stack.
    pub open spec fn effective(self) -> Seq<Field> {
        overlay(
            overlay(self.global.visible(), merged(self.sync_frames)),
            merged(self.async_visible()),
        )
    }

    /// Both stacks merged, the thread-scoped stack winning: what a capture for a
    /// boundary without structural link publishes.
    pub open spec fn union(self) -> Seq<Field> {
        overlay(merged(self.async_visible()), merged(self.sync_frames))
    }

    /// The fields that a scope inherits for injection one by one: the effective
    /// context without the function name.
    pub open spec fn inherited_fields(self) -> Seq<Field> {
        without_key(self.effective(), function_key())
    }

    /// The parts of the flat rendering, in the order of a walk: the frames of the
    /// task-scoped stack from the innermost to the outermost, then those of the
    /// thread-scoped stack, then the store. Each key stands where the walk first
    /// meets it; within one frame and within the store the keys ascend. The function
    /// name is left out.
    pub open spec fn inherited_parts(self) -> Seq<Field> {
        without_key(
            fill_missing(
                walk(walk(Seq::empty(), self.async_visible()), self.sync_frames),
                self.global.visible(),
            ),
            function_key(),
        )
    }

    /// The engine after `frame` was pushed on the thread-scoped stack.
    pub open spec fn push_sync(self, frame: Seq<Field>) -> EngineModel {
        EngineModel { sync_frames: self.sync_frames.push(frame), ..self }
    }

    /// The engine after `frame` was pushed on the task-scoped stack: unchanged where
    /// that stack cannot be reached.
    pub open spec fn push_async(self, frame: Seq<Field>) -> EngineModel {
        match self.async_frames {
            Some(frames) => EngineModel { async_frames: Some(frames.push(frame)), ..self },
            None => self,
        }
    }

    /// The engine after the innermost frame of the thread-scoped stack was popped:
    /// unchanged where the stack has no frame.
    pub open spec fn pop_sync(self) -> EngineModel {
        if self.sync_frames.len() > 0 {
            EngineModel { sync_frames: self.sync_frames.drop_last(), ..self }
        } else {
            self
        }
    }

    /// The engine after the innermost frame of the task-scoped stack was popped:
    /// unchanged where the stack has no frame or cannot be reached.
    pub open spec fn pop_async(self) -> EngineModel {
        match self.async_frames {
            Some(frames) => if frames.len() > 0 {
                EngineModel { async_frames: Some(frames.drop_last()), ..self }
            } else {
                self
            },
            None => self,
        }
    }

    /// The engine after `key` was set to `value` in the store.
    pub open spec fn set_global(self, key: Seq<char>, value: Seq<char>) -> EngineModel {
        EngineModel { global: self.global.set(key, value), ..self }
    }

    /// The engine after a capture within one boundary: `local` pushed on both stacks.
    pub open spec fn capture_local(self) -> EngineModel {
        self.push_async(self.local()).push_sync(self.local())
    }

    /// The engine after a capture for a boundary without structural link: `union`
    /// published to the store and pushed on both stacks.
    pub open spec fn capture_union(self) -> EngineModel {
        EngineModel { global: self.global.publish(self.union()), ..self }.push_async(
            self.union(),
        ).push_sync(self.union())
    }
}

/// The three layers of context as one execution context sees them.
pub struct ContextEngine {
    async_stack: Option<FrameStack>,
    sync_stack: FrameStack,
    global: GlobalContextStore,
}

impl View for ContextEngine {
    type V = EngineModel;

    closed spec fn view(&self) -> EngineModel {
        EngineModel {
            async_frames: match self.async_stack {
                Some(stack) => Some(stack@),
                None => None,
            },
            sync_frames: self.sync_stack@,
            global: self.global@,
        }
    }
}

impl ContextEngine {
    /// An engine with two empty stacks and an empty, usable store: the state of a
    /// process at its start.
    pub fn new() -> (r: ContextEngine)
        ensures
            r@ == (EngineModel {
                async_frames: Some(Seq::empty()),
                sync_frames: Seq::empty(),
                global: StoreModel { fields: Seq::empty(), poisoned: false },
            }),
    {
        ContextEngine {
            async_stack: Some(FrameStack::new()),
            sync_stack: FrameStack::new(),
            global: GlobalContextStore::new(),
        }
    }

    /// An engine over the given layers. `None` for the task-scoped stack says that the
    /// current execution context has no task-local storage.
    pub fn from_layers(
        async_stack: Option<FrameStack>,
        sync_stack: FrameStack,
        global: GlobalContextStore,
    ) -> (r: ContextEngine)
        ensures
            r@ == (EngineModel {
                async_frames: match async_stack {
                    Some(stack) => Some(stack@),
                    None => None,
                },
                sync_frames: sync_stack@,
                global: global@,
            }),
    {
        ContextEngine { async_stack, sync_stack, global }
    }

    /// The layers of the engine: the task-scoped stack, the thread-scoped stack, the
    /// store.
    pub fn into_layers(self) -> (r: (Option<FrameStack>, FrameStack, GlobalContextStore))
        ensures
            self@ == (EngineModel {
                async_frames: match r.0 {
                    Some(stack) => Some(stack@),
                    None => None,
                },
                sync_frames: r.1@,
                global: r.2@,
            }),
    {
        (self.async_stack, self.sync_stack, self.global)
    }

    /// Sets `key` to `value` in the store, where it outlives every frame.
    pub fn set_global_context(&mut self, key: &str, value: &str)
        ensures
            final(self)@ == old(self)@.set_global(key@, value@),
    {
        self.global.set(key, value);
    }

    /// A copy of the store, or nothing where the store is empty or poisoned.
    pub fn get_global_context(&self) -> (r: Option<Context>)
        ensures
            match r {
                Some(c) => c@ == self@.global.visible() && c@.len() > 0,
                None => self@.global.visible().len() == 0,
            },
    {
        self.global.snapshot()
    }

    /// The value that `key` resolves to: the task-scoped stack is asked first, then
    /// the thread-scoped stack, then the store.
    pub fn get_context_value(&self, key: &str) -> (r: Option<String>)
        ensures
            match r {
                Some(v) => self@.resolve(key@) == Some(v@),
                None => self@.resolve(key@).is_none(),
            },
    {
        match &self.async_stack {
            Some(stack) => {
                let found = stack.lookup(key);
                if found.is_some() {
                    return found;
                }
            },
            None => {},
        }
        let found = self.sync_stack.lookup(key);
        if found.is_some() {
            return found;
        }
        self.global.get(key)
    }

    /// The frames of the thread-scoped stack, merged.
    pub fn get_context(&self) -> (r: Context)
        ensures
            r@ == merged(self@.sync_frames),
    {
        self.sync_stack.current_merged()
    }

    /// The frames of the task-scoped stack, merged; an empty context where the stack
    /// cannot be reached.
    pub fn get_async_context(&self) -> (r: Context)
        ensures
            r@ == merged(self@.async_visible()),
    {
        match &self.async_stack {
            Some(stack) => stack.current_merged(),
            None => Context::new(),
        }
    }

    /// Copies of the frames of the task-scoped stack, oldest first; one empty frame
    /// where the stack cannot be reached.
    pub fn get_current_async_stack(&self) -> (r: Vec<Context>)
        ensures
            frames_view(r@) == match self@.async_frames {
                Some(frames) => frames,
                None => seq![Seq::<Field>::empty()],
            },
    {
        match &self.async_stack {
            Some(stack) => stack.frames(),
            None => {
                let mut r: Vec<Context> = Vec::new();
                r.push(Context::new());
                assert(frames_view(r@) =~= seq![Seq::<Field>::empty()]);
                r
            },
        }
    }

    /// All three layers merged into one context: what is attached to a log event.
    pub fn effective_context(&self) -> (r: Context)
        ensures
            r@ == self@.effective(),
    {
        let mut r = match self.global.snapshot() {
            Some(c) => c,
            None => Context::new(),
        };
        assert(r@ =~= self@.global.visible());
        let sync = self.get_context();
        r.extend(&sync);
        let task = self.get_async_context();
        r.extend(&task);
        r
    }

    /// The number of frames on the thread-scoped stack.
    pub fn sync_depth(&self) -> (n: usize)
        ensures
            n == self@.sync_frames.len(),
    {
        self.sync_stack.depth()
    }

    /// The number of frames on the task-scoped stack; 0 where it cannot be reached.
    pub fn async_depth(&self) -> (n: usize)
        ensures
            n == self@.async_visible().len(),
    {
        match &self.async_stack {
            Some(stack) => stack.depth(),
            None => 0,
        }
    }

    /// Pushes `context` as the innermost frame of the thread-scoped stack. The guard
    /// that comes back is bound to this push: it records the depth of the new frame,
    /// and releasing it pops the innermost frame.
    pub fn push_context(&mut self, context: Context) -> (guard: ContextGuard)
        ensures
            final(self)@ == old(self)@.push_sync(context@),
            guard.depth() == final(self)@.sync_frames.len(),
    {
        self.sync_stack.push(context);
        ContextGuard::bind(self.sync_stack.depth())
    }

    /// Pushes `context` as the innermost frame of the task-scoped stack. The guard
    /// that comes back is bound to this push: it records the depth of the new frame,
    /// and releasing it pops the innermost frame. Where the stack cannot be reached,
    /// nothing is pushed and the guard records the depth 0.
    pub fn push_async_context(&mut self, context: Context) -> (guard: AsyncContextGuard)
        ensures
            final(self)@ == old(self)@.push_async(context@),
            guard.depth() == final(self)@.async_visible().len(),
    {
        match &mut self.async_stack {
            Some(stack) => {
                stack.push(context);
            },
            None => {},
        }
        AsyncContextGuard::bind(self.async_depth())
    }

    /// Pops the innermost frame of the thread-scoped stack. Without a frame this does
    /// nothing.
    pub fn pop_context(&mut self)
        ensures
            final(self)@ == old(self)@.pop_sync(),
    {
        let _ = self.sync_stack.pop();
    }

    /// Pops the innermost frame of the task-scoped stack. Without a frame, or where
    /// the stack cannot be reached, this does nothing.
    pub fn pop_async_context(&mut self)
        ensures
            final(self)@ == old(self)@.pop_async(),
    {
        match &mut self.async_stack {
            Some(stack) => {
                let _ = stack.pop();
            },
            None => {},
        }
    }

    /// Captures the context for code that stays within this boundary: both stacks
    /// merged, without the store, are pushed on both stacks, so that code that asks
    /// only one of them still finds everything. The guard pops both frames.
    pub fn auto_capture_context(&mut self) -> (guard: CaptureGuard)
        ensures
            final(self)@ == old(self)@.capture_local(),
            guard.sync_depth() == final(self)@.sync_frames.len(),
            guard.async_depth() == final(self)@.async_visible().len(),
    {
        let mut current = self.get_context();
        let task = self.get_async_context();
        current.extend(&task);
        let async_guard = self.push_async_context(current.clone());
        let sync_guard = self.push_context(current);
        CaptureGuard::join(sync_guard, async_guard)
    }

    /// Captures the context for work that is scheduled on its own and shares no stack
    /// with this scope: both stacks merged, the thread-scoped one winning, are
    /// published to the store key by key and pushed on both stacks. The guard pops
    /// both frames; what was published stays.
    pub fn capture_context(&mut self) -> (guard: CaptureGuard)
        ensures
            final(self)@ == old(self)@.capture_union(),
            guard.sync_depth() == final(self)@.sync_frames.len(),
            guard.async_depth() == final(self)@.async_visible().len(),
    {
        let mut current = self.get_async_context();
        let sync = self.get_context();
        current.extend(&sync);
        self.global.publish(&current);
        let async_guard = self.push_async_context(current.clone());
        let sync_guard = self.push_context(current);
        CaptureGuard::join(sync_guard, async_guard)
    }

    /// The effective context as one string of `key=value` joined by commas, without
    /// the function name. The parts stand in the order of a walk from the most
    /// specific layer to the least specific one; equal layers give equal strings.
    pub fn get_inherited_context_string(&self) -> (r: String)
        ensures
            r@ == render(self@.inherited_parts()),
    {
        let mut parts: Vec<(String, String)> = Vec::new();
        assert(pairs_view(parts@) =~= Seq::<Field>::empty());
        match &self.async_stack {
            Some(stack) => {
                absorb_frames(&mut parts, stack);
            },
            None => {},
        }
        absorb_frames(&mut parts, &self.sync_stack);
        match self.global.snapshot() {
            Some(entries) => {
                absorb(&mut parts, &entries);
            },
            None => {
                assert(self@.global.visible() =~= Seq::<Field>::empty());
            },
        }
        drop_key(&mut parts, function_key_name());
        render_pairs(&parts)
    }

    /// The fields that a scope inherits for injection one by one: the effective
    /// context, all three layers merged, without the function name.
    pub fn get_inherited_fields_map(&self) -> (r: Context)
        ensures
            r@ == self@.inherited_fields(),
            !has_key(r@, function_key()),
    {
        let mut r = self.effective_context();
        r.remove(function_key_name());
        r
    }
}

} // verus!
