//! The contexts that are handed to reactive code: an explicit bundle of the
//! store, the node on whose behalf the code runs, and the tracking scope
//! that collects what the code reads.

use vstd::prelude::*;
use crate::tracking_scope::{Dependency, NodeId, TrackingScope};
use crate::store::Store;

verus! {

/// A read-only reactive context, for derived signals and tests. It holds the
/// tracking scope for as long as the code runs; `into_tracking` gives the
/// scope back.
pub struct Rcx<'a, T> {
    pub world: &'a Store<T>,
    pub owner: NodeId,
    pub tracking: TrackingScope,
}

impl<'a, T> Rcx<'a, T> {
    /// A context over `world` for code that runs on behalf of `owner`; what
    /// it reads is recorded in `tracking`.
    pub fn new(world: &'a Store<T>, owner: NodeId, tracking: TrackingScope) -> (cx: Self)
        ensures
            cx.world == world,
            cx.owner == owner,
            cx.tracking == tracking,
    {
        Rcx { world, owner, tracking }
    }

    /// Records that the code has read `dep`.
    pub fn track(&mut self, dep: Dependency)
        ensures
            final(self).world == old(self).world,
            final(self).owner == old(self).owner,
            final(self).tracking.deps() == old(self).tracking.deps().insert(dep),
            final(self).tracking.tick() == old(self).tracking.tick(),
    {
        self.tracking.record(dep);
    }

    /// Ends the context and hands back the scope with what was recorded.
    pub fn into_tracking(self) -> (tracking: TrackingScope)
        ensures
            tracking == self.tracking,
    {
        self.tracking
    }
}

/// A reactive context for effects: the code may write to the store. It
/// holds the store and the tracking scope for as long as the effect runs;
/// `finish` gives both back.
pub struct Ecx<T> {
    pub world: Store<T>,
    pub owner: NodeId,
    pub tracking: TrackingScope,
}

impl<T> Ecx<T> {
    /// A context over `world` for an effect that runs on behalf of `owner`;
    /// what it reads is recorded in `tracking`.
    pub fn new(world: Store<T>, owner: NodeId, tracking: TrackingScope) -> (cx: Self)
        ensures
            cx.world == world,
            cx.owner == owner,
            cx.tracking == tracking,
    {
        Ecx { world, owner, tracking }
    }

    /// Records that the code has read `dep`.
    pub fn track(&mut self, dep: Dependency)
        ensures
            final(self).world == old(self).world,
            final(self).owner == old(self).owner,
            final(self).tracking.deps() == old(self).tracking.deps().insert(dep),
            final(self).tracking.tick() == old(self).tracking.tick(),
    {
        self.tracking.record(dep);
    }

    /// Ends the context and hands back the store and the scope.
    pub fn finish(self) -> (parts: (Store<T>, TrackingScope))
        ensures
            parts.0 == self.world,
            parts.1 == self.tracking,
    {
        (self.world, self.tracking)
    }
}

} // verus!
