//! Scoped guards: each stands for one frame on one stack, and releasing it pops that
//! stack.
//!
//! A guard is released by value, so it cannot be released twice. Guards of one stack
//! are to be released in the reverse order of their creation.

use vstd::prelude::*;
use crate::engine::ContextEngine;

verus! {

/// The guard of a frame on the thread-scoped stack. It records where its frame stands.
#[must_use]
pub struct ContextGuard {
    depth: usize,
}

/// The guard of a frame on the task-scoped stack. It records where its frame stands.
#[must_use]
pub struct AsyncContextGuard {
    depth: usize,
}

/// The guard of a capture: one frame on each stack.
#[must_use]
pub struct CaptureGuard {
    sync_guard: ContextGuard,
    async_guard: AsyncContextGuard,
}

impl ContextGuard {
    pub(crate) fn bind(depth: usize) -> (guard: ContextGuard)
        ensures
            guard.depth() == depth,
    {
        ContextGuard { depth }
    }

    /// How many frames the thread-scoped stack held once the frame of this guard was
    /// pushed: the guard stands for the frame at this depth, counted from one.
    pub closed spec fn depth(&self) -> nat {
        self.depth as nat
    }
}

impl AsyncContextGuard {
    pub(crate) fn bind(depth: usize) -> (guard: AsyncContextGuard)
        ensures
            guard.depth() == depth,
    {
        AsyncContextGuard { depth }
    }

    /// How many frames the task-scoped stack held once the frame of this guard was
    /// pushed; 0 where the stack could not be reached and nothing was pushed.
    pub closed spec fn depth(&self) -> nat {
        self.depth as nat
    }
}

impl CaptureGuard {
    pub(crate) fn join(sync_guard: ContextGuard, async_guard: AsyncContextGuard) -> (guard:
        CaptureGuard)
        ensures
            guard.sync_depth() == sync_guard.depth(),
            guard.async_depth() == async_guard.depth(),
    {
        CaptureGuard { sync_guard, async_guard }
    }

    /// The depth of the captured frame on the thread-scoped stack.
    pub closed spec fn sync_depth(&self) -> nat {
        self.sync_guard.depth()
    }

    /// The depth of the captured frame on the task-scoped stack; 0 where the stack
    /// could not be reached.
    pub closed spec fn async_depth(&self) -> nat {
        self.async_guard.depth()
    }
}

impl ContextGuard {
    /// The depth at which the frame of this guard stands, counted from one.
    pub fn frame_depth(&self) -> (d: usize)
        ensures
            d == self.depth(),
    {
        self.depth
    }

    /// Whether the frame of this guard is the innermost of the thread-scoped stack of
    /// `engine`, as it is whenever guards are released in the reverse order of their
    /// creation.
    pub fn is_innermost(&self, engine: &ContextEngine) -> (r: bool)
        ensures
            r == (self.depth() > 0 && engine@.sync_frames.len() == self.depth()),
    {
        self.depth > 0 && engine.sync_depth() == self.depth
    }

    /// Pops the innermost frame of the thread-scoped stack of `engine`. Where the
    /// stack has no frame, nothing happens.
    pub fn release(self, engine: &mut ContextEngine)
        ensures
            final(engine)@ == old(engine)@.pop_sync(),
    {
        engine.pop_context();
    }
}

impl AsyncContextGuard {
    /// The depth at which the frame of this guard stands, counted from one; 0 where
    /// nothing was pushed.
    pub fn frame_depth(&self) -> (d: usize)
        ensures
            d == self.depth(),
    {
        self.depth
    }

    /// Whether the frame of this guard is the innermost of the task-scoped stack of
    /// `engine`, as it is whenever guards are released in the reverse order of their
    /// creation.
    pub fn is_innermost(&self, engine: &ContextEngine) -> (r: bool)
        ensures
            r == (self.depth() > 0 && engine@.async_visible().len() == self.depth()),
    {
        self.depth > 0 && engine.async_depth() == self.depth
    }

    /// Pops the innermost frame of the task-scoped stack of `engine`. Where the stack
    /// has no frame or cannot be reached, nothing happens.
    pub fn release(self, engine: &mut ContextEngine)
        ensures
            final(engine)@ == old(engine)@.pop_async(),
    {
        engine.pop_async_context();
    }
}

impl CaptureGuard {
    /// The depths at which the two captured frames stand: thread-scoped stack first,
    /// task-scoped stack second.
    pub fn frame_depths(&self) -> (d: (usize, usize))
        ensures
            d.0 == self.sync_depth(),
            d.1 == self.async_depth(),
    {
        (self.sync_guard.frame_depth(), self.async_guard.frame_depth())
    }

    /// Pops the innermost frame of each stack of `engine`, the thread-scoped one
    /// first.
    pub fn release(self, engine: &mut ContextEngine)
        ensures
            final(engine)@ == old(engine)@.pop_sync().pop_async(),
    {
        self.sync_guard.release(engine);
        self.async_guard.release(engine);
    }
}

} // verus!
