//! The contract between a view and whoever drives it: a view is built on a
//! node, reacts when what it has read was written, and is razed with
//! everything it made.

use vstd::prelude::*;
use crate::error::ReactorError;
use crate::node_span::NodeSpan;
use crate::tracking_scope::{Dependency, NodeId, TrackingScope};
use crate::store::{Store, StoreView};

verus! {

/// A unit that builds and tears down a subtree of the store.
///
/// The three relations say what one call of `build`, `react` and `raze` may
/// do. Each view states them of its own code; a view that groups other
/// views states its relations over theirs. Of a view that states nothing
/// the engine assumes nothing: it only hands the view a well-formed store,
/// and every store that a view can hand back is well-formed.
pub trait ReactiveView<T>: Sized {
    /// The invariant of the view. A view that states none has none.
    open spec fn inv(&self) -> bool {
        true
    }

    /// The nodes that the view shows, in order. A view that does not say
    /// what it shows is held to nothing.
    open spec fn shown(&self) -> Seq<NodeId> {
        arbitrary()
    }

    /// A call of `build` on `node` may turn `pre` into `post` and the store
    /// `before` into `after`, with result `res`. A view that states
    /// nothing may do anything.
    open spec fn built(
        pre: Self,
        post: Self,
        node: NodeId,
        before: StoreView<T>,
        after: StoreView<T>,
        res: Result<(), ReactorError>,
    ) -> bool {
        true
    }

    /// A call of `react` on `node` may turn `pre` into `post`, the store
    /// `before` into `after` and the dependencies of the tracking scope from
    /// `had` into `read`, and return `res`.
    open spec fn reacted(
        pre: Self,
        post: Self,
        node: NodeId,
        before: StoreView<T>,
        after: StoreView<T>,
        had: Set<Dependency>,
        read: Set<Dependency>,
        res: Result<(), ReactorError>,
    ) -> bool {
        true
    }

    /// A call of `raze` on `node` may turn `pre` into `post` and the store
    /// `before` into `after`, with result `res`.
    open spec fn razed(
        pre: Self,
        post: Self,
        node: NodeId,
        before: StoreView<T>,
        after: StoreView<T>,
        res: Result<(), ReactorError>,
    ) -> bool {
        true
    }

    /// The nodes that the view shows.
    fn nodes(&self) -> (span: NodeSpan)
        requires
            self.inv(),
        ensures
            span.flat() == self.shown(),
    ;

    /// Builds the view on `node`.
    fn build(&mut self, node: NodeId, world: &mut Store<T>) -> (res: Result<(), ReactorError>)
        requires
            old(self).inv(),
            old(world).wf(),
        ensures
            final(self).inv(),
            final(world).wf(),
            Self::built(*old(self), *final(self), node, old(world)@, final(world)@, res),
    ;

    /// Brings the view up to date after a write to something it had read.
    /// What it reads now is recorded in `tracking`.
    fn react(&mut self, node: NodeId, world: &mut Store<T>, tracking: &mut TrackingScope) -> (res: Result<
        (),
        ReactorError,
    >)
        requires
            old(self).inv(),
            old(world).wf(),
        ensures
            final(self).inv(),
            final(world).wf(),
            Self::reacted(
                *old(self),
                *final(self),
                node,
                old(world)@,
                final(world)@,
                old(tracking).deps(),
                final(tracking).deps(),
                res,
            ),
    ;

    /// Tears the view down, with everything it made.
    fn raze(&mut self, node: NodeId, world: &mut Store<T>) -> (res: Result<(), ReactorError>)
        requires
            old(self).inv(),
            old(world).wf(),
        ensures
            final(self).inv(),
            final(world).wf(),
            Self::razed(*old(self), *final(self), node, old(world)@, final(world)@, res),
    ;
}

/// The empty view: it shows nothing and builds nothing. Razing it despawns
/// the node that it was given.
impl<T> ReactiveView<T> for () {
    open spec fn inv(&self) -> bool {
        true
    }

    open spec fn shown(&self) -> Seq<NodeId> {
        Seq::empty()
    }

    open spec fn built(
        pre: Self,
        post: Self,
        node: NodeId,
        before: StoreView<T>,
        after: StoreView<T>,
        res: Result<(), ReactorError>,
    ) -> bool {
        after == before && res is Ok
    }

    open spec fn reacted(
        pre: Self,
        post: Self,
        node: NodeId,
        before: StoreView<T>,
        after: StoreView<T>,
        had: Set<Dependency>,
        read: Set<Dependency>,
        res: Result<(), ReactorError>,
    ) -> bool {
        after == before && read == had && res is Ok
    }

    open spec fn razed(
        pre: Self,
        post: Self,
        node: NodeId,
        before: StoreView<T>,
        after: StoreView<T>,
        res: Result<(), ReactorError>,
    ) -> bool {
        after == before.razed(node) && res is Ok
    }

    fn nodes(&self) -> (span: NodeSpan) {
        NodeSpan::Empty
    }

    fn build(&mut self, node: NodeId, world: &mut Store<T>) -> (res: Result<(), ReactorError>) {
        Ok(())
    }

    fn react(&mut self, node: NodeId, world: &mut Store<T>, tracking: &mut TrackingScope) -> (res: Result<
        (),
        ReactorError,
    >) {
        Ok(())
    }

    fn raze(&mut self, node: NodeId, world: &mut Store<T>) -> (res: Result<(), ReactorError>) {
        world.despawn_recursive(node);
        Ok(())
    }
}

} // verus!
