//! A fragment groups child views so that they stand inline where one view
//! is expected. It shows what its children show, and builds and razes them
//! in the order in which they were given.

use vstd::prelude::*;
use crate::error::ReactorError;
use crate::node_span::{flat_from, NodeSpan};
use crate::tracking_scope::{Dependency, NodeId, TrackingScope};
use crate::view::ReactiveView;
use crate::store::{Store, StoreView};

verus! {

/// A child of a grouping view: the view, and the node it was built on once
/// it is built.
pub struct ChildView<C> {
    pub view: C,
    pub entity: Option<NodeId>,
}

/// What building one child does: a node is added below `parent` and the
/// child is built on it. Where `parent` is not alive the step fails with
/// `MissingDependency` and changes nothing.
pub open spec fn child_built<T, C: ReactiveView<T>>(
    pre: ChildView<C>,
    post: ChildView<C>,
    parent: NodeId,
    before: StoreView<T>,
    after: StoreView<T>,
    res: Result<(), ReactorError>,
) -> bool {
    if !before.alive(parent) {
        &&& post == pre
        &&& after == before
        &&& res == Err::<(), ReactorError>(ReactorError::MissingDependency)
    } else {
        &&& post.entity == Some(before.nodes.len() as NodeId)
        &&& C::built(
            pre.view,
            post.view,
            before.nodes.len() as NodeId,
            before.spawned(Some(parent)),
            after,
            res,
        )
    }
}

/// What razing one child does: a built child is razed on its node, with
/// result `res`, and is unbuilt afterwards. A child that is not built
/// cannot be razed: the step fails with `InvalidState` and changes nothing.
pub open spec fn child_razed<T, C: ReactiveView<T>>(
    pre: ChildView<C>,
    post: ChildView<C>,
    before: StoreView<T>,
    after: StoreView<T>,
    res: Result<(), ReactorError>,
) -> bool {
    match pre.entity {
        Some(node) => post.entity is None && C::razed(pre.view, post.view, node, before, after, res),
        None => post == pre && after == before && res == Err::<(), ReactorError>(ReactorError::InvalidState),
    }
}

/// Step `i` of a build that ends with `res`: child `i` takes the store
/// from `ws[i]` to `ws[i + 1]`. Every step but the last succeeds; the last
/// one has the result of the build.
pub open spec fn build_step<T, C: ReactiveView<T>>(
    pre: Seq<ChildView<C>>,
    post: Seq<ChildView<C>>,
    parent: NodeId,
    ws: Seq<StoreView<T>>,
    i: int,
    res: Result<(), ReactorError>,
) -> bool {
    child_built(
        pre[i],
        post[i],
        parent,
        ws[i],
        ws[i + 1],
        if i == ws.len() - 2 {
            res
        } else {
            Ok(())
        },
    )
}

/// Step `i` of a raze that ends with `res`: child `i` takes the store from
/// `ws[i]` to `ws[i + 1]`. Every step but the last succeeds; the last one
/// has the result of the raze.
pub open spec fn raze_step<T, C: ReactiveView<T>>(
    pre: Seq<ChildView<C>>,
    post: Seq<ChildView<C>>,
    ws: Seq<StoreView<T>>,
    i: int,
    res: Result<(), ReactorError>,
) -> bool {
    child_razed(
        pre[i],
        post[i],
        ws[i],
        ws[i + 1],
        if i == ws.len() - 2 {
            res
        } else {
            Ok(())
        },
    )
}

/// The children were built one after the other, in their order, through the
/// stores `ws`: child 0 first, from `ws[0]`, each next child from the store
/// that the one before it left. The build stops at the first child that
/// fails; the children after it are untouched.
pub open spec fn children_built<T, C: ReactiveView<T>>(
    pre: Seq<ChildView<C>>,
    post: Seq<ChildView<C>>,
    parent: NodeId,
    ws: Seq<StoreView<T>>,
    res: Result<(), ReactorError>,
) -> bool {
    let done = ws.len() - 1;
    &&& pre.len() == post.len()
    &&& 0 <= done <= pre.len()
    &&& res is Ok ==> done == pre.len()
    &&& res is Err ==> done >= 1
    &&& forall|i: int| 0 <= i < done ==> #[trigger] build_step(pre, post, parent, ws, i, res)
    &&& forall|i: int| done <= i < pre.len() ==> #[trigger] post[i] == pre[i]
}

/// The children were razed one after the other, in their order, through the
/// stores `ws`: child 0 first. The raze stops at the first child that
/// fails or is not built; the children after it are untouched.
pub open spec fn children_razed<T, C: ReactiveView<T>>(
    pre: Seq<ChildView<C>>,
    post: Seq<ChildView<C>>,
    ws: Seq<StoreView<T>>,
    res: Result<(), ReactorError>,
) -> bool {
    let done = ws.len() - 1;
    &&& pre.len() == post.len()
    &&& 0 <= done <= pre.len()
    &&& res is Ok ==> done == pre.len()
    &&& res is Err ==> done >= 1
    &&& forall|i: int| 0 <= i < done ==> #[trigger] raze_step(pre, post, ws, i, res)
    &&& forall|i: int| done <= i < pre.len() ==> #[trigger] post[i] == pre[i]
}

/// What the children from position `from` on show, in order.
pub open spec fn shown_from<T, C: ReactiveView<T>>(children: Seq<ChildView<C>>, from: int) -> Seq<NodeId>
    decreases children.len() - from,
{
    if 0 <= from < children.len() {
        children[from].view.shown() + shown_from::<T, C>(children, from + 1)
    } else {
        Seq::empty()
    }
}

/// A group of child views that stand inline within a parent view.
pub struct Fragment<C> {
    children: Vec<ChildView<C>>,
}

impl<C> Fragment<C> {
    /// The children, in their order.
    pub closed spec fn children(&self) -> Seq<ChildView<C>> {
        self.children@
    }

    /// Construct a new `Fragment` of the given views, in their order. None
    /// of them is built yet.
    pub fn new(views: Vec<C>) -> (fragment: Self)
        ensures
            fragment.children().len() == views@.len(),
            forall|i: int|
                0 <= i < views@.len() ==> #[trigger] fragment.children()[i] == (ChildView {
                    view: views@[i],
                    entity: None,
                }),
    {
        let mut views = views;
        let ghost all = views@;
        let mut children: Vec<ChildView<C>> = Vec::new();
        while views.len() > 0
            invariant
                children@.len() + views@.len() == all.len(),
                forall|i: int|
                    0 <= i < children@.len() ==> #[trigger] children@[i] == (ChildView {
                        view: all[i],
                        entity: None,
                    }),
                forall|i: int| 0 <= i < views@.len() ==> #[trigger] views@[i] == all[children@.len() + i],
            decreases views@.len(),
        {
            let view = views.remove(0);
            children.push(ChildView { view, entity: None });
        }
        Fragment { children }
    }

    /// Construct a new `Fragment` from a slice of views, cloning each. None
    /// of them is built yet.
    pub fn from_slice(views: &[C]) -> (fragment: Self) where C: Clone
        ensures
            fragment.children().len() == views@.len(),
            forall|i: int|
                0 <= i < views@.len() ==> cloned(views@[i], (#[trigger] fragment.children()[i]).view)
                    && fragment.children()[i].entity is None,
    {
        let mut children: Vec<ChildView<C>> = Vec::new();
        let mut i: usize = 0;
        while i < views.len()
            invariant
                i <= views@.len(),
                children@.len() == i,
                forall|k: int|
                    0 <= k < i ==> cloned(views@[k], (#[trigger] children@[k]).view) && children@[k].entity is None,
            decreases views@.len() - i,
        {
            children.push(ChildView { view: views[i].clone(), entity: None });
            i += 1;
        }
        Fragment { children }
    }

    /// How many children the fragment has.
    pub fn len(&self) -> (n: usize)
        ensures
            n == self.children().len(),
    {
        self.children.len()
    }

    /// The node on which child `i` is built, if it is.
    pub fn child_entity(&self, i: usize) -> (entity: Option<NodeId>)
        ensures
            entity == if i < self.children().len() {
                self.children()[i as int].entity
            } else {
                None
            },
    {
        if i < self.children.len() {
            self.children[i].entity
        } else {
            None
        }
    }
}

impl<C> Default for Fragment<C> {
    fn default() -> (fragment: Self)
        ensures
            fragment.children().len() == 0,
    {
        Fragment { children: Vec::new() }
    }
}

/// Spans that show, one by one, what the children show flatten to what the
/// children show together.
proof fn lemma_flat_is_shown<T, C: ReactiveView<T>>(spans: Seq<NodeSpan>, children: Seq<ChildView<C>>, from: int)
    requires
        spans.len() == children.len(),
        0 <= from <= spans.len(),
        forall|k: int| 0 <= k < spans.len() ==> (#[trigger] spans[k]).flat() == children[k].view.shown(),
    ensures
        flat_from(spans, from) == shown_from::<T, C>(children, from),
    decreases spans.len() - from,
{
    if from < spans.len() {
        lemma_flat_is_shown::<T, C>(spans, children, from + 1);
    }
}

/// The invariant of a fragment: its children are valid.
pub open spec fn fragment_inv<T, C: ReactiveView<T>>(view: Fragment<C>) -> bool {
    forall|i: int| 0 <= i < view.children().len() ==> (#[trigger] view.children()[i]).view.inv()
}

/// The children are built in their order, each on a new node below `node`.
pub open spec fn fragment_built<T, C: ReactiveView<T>>(
    pre: Fragment<C>,
    post: Fragment<C>,
    node: NodeId,
    before: StoreView<T>,
    after: StoreView<T>,
    res: Result<(), ReactorError>,
) -> bool {
    exists|ws: Seq<StoreView<T>>| #[trigger]
        children_built(pre.children(), post.children(), node, ws, res) && ws[0] == before && ws[ws.len() - 1]
            == after
}

/// The children are razed in the order in which they were built, and then
/// `node` is despawned with what is left below it. Where a child fails or
/// is not built the raze ends there, with that result, and `node` stays.
pub open spec fn fragment_razed<T, C: ReactiveView<T>>(
    pre: Fragment<C>,
    post: Fragment<C>,
    node: NodeId,
    before: StoreView<T>,
    after: StoreView<T>,
    res: Result<(), ReactorError>,
) -> bool {
    exists|ws: Seq<StoreView<T>>| #[trigger]
        children_razed(pre.children(), post.children(), ws, res) && ws[0] == before && ws[ws.len() - 1].wf()
            && after == if res is Ok {
            ws[ws.len() - 1].razed(node)
        } else {
            ws[ws.len() - 1]
        }
}

impl<T, C: ReactiveView<T>> ReactiveView<T> for Fragment<C> {
    open spec fn inv(&self) -> bool {
        fragment_inv::<T, C>(*self)
    }

    open spec fn shown(&self) -> Seq<NodeId> {
        shown_from::<T, C>(self.children(), 0)
    }

    open spec fn built(
        pre: Self,
        post: Self,
        node: NodeId,
        before: StoreView<T>,
        after: StoreView<T>,
        res: Result<(), ReactorError>,
    ) -> bool {
        fragment_built::<T, C>(pre, post, node, before, after, res)
    }

    /// A fragment has nothing of its own to bring up to date.
    open spec fn reacted(
        pre: Self,
        post: Self,
        node: NodeId,
        before: StoreView<T>,
        after: StoreView<T>,
        had: Set<Dependency>,
        read: Set<Dependency>,
        res: Result<(), ReactorError>,
    ) -> bool {
        &&& post == pre
        &&& after == before
        &&& read == had
        &&& res is Ok
    }

    open spec fn razed(
        pre: Self,
        post: Self,
        node: NodeId,
        before: StoreView<T>,
        after: StoreView<T>,
        res: Result<(), ReactorError>,
    ) -> bool {
        fragment_razed::<T, C>(pre, post, node, before, after, res)
    }

    fn nodes(&self) -> (span: NodeSpan)
        ensures
            span.flat() == shown_from::<T, C>(self.children(), 0),
            span matches NodeSpan::Fragment(spans) && spans@.len() == self.children().len() && forall|i: int|
                0 <= i < spans@.len() ==> (#[trigger] spans@[i]).flat() == self.children()[i].view.shown(),
    {
        let mut spans: Vec<NodeSpan> = Vec::new();
        let mut i: usize = 0;
        while i < self.children.len()
            invariant
                fragment_inv::<T, C>(*self),
                i <= self.children@.len(),
                spans@.len() == i,
                forall|k: int| 0 <= k < i ==> (#[trigger] spans@[k]).flat() == self.children@[k].view.shown(),
            decreases self.children@.len() - i,
        {
            assert(self.children()[i as int].view.inv());
            spans.push(self.children[i].view.nodes());
            i += 1;
        }
        proof {
            lemma_flat_is_shown::<T, C>(spans@, self.children@, 0);
        }
        NodeSpan::Fragment(spans)
    }

    fn build(&mut self, node: NodeId, world: &mut Store<T>) -> (res: Result<(), ReactorError>)
        ensures
            fragment_inv::<T, C>(*final(self)),
            fragment_built::<T, C>(*old(self), *final(self), node, old(world)@, final(world)@, res),
    {
        let ghost pre = self.children@;
        let ghost mut ws: Seq<StoreView<T>> = seq![world@];
        let n = self.children.len();
        let mut i: usize = 0;
        while i < n
            invariant
                i <= n,
                n == pre.len(),
                pre == old(self).children@,
                self.children@.len() == n,
                world.wf(),
                ws.len() == i + 1,
                ws[0] == old(world)@,
                ws[i as int] == world@,
                forall|k: int| 0 <= k < n ==> (#[trigger] self.children@[k]).view.inv(),
                forall|k: int| 0 <= k < i ==> #[trigger] build_step(pre, self.children@, node, ws, k, Ok(())),
                forall|k: int| i <= k < n ==> #[trigger] self.children@[k] == pre[k],
            decreases n - i,
        {
            let ghost before = world@;
            let ghost done = self.children@;
            match world.spawn_child(node) {
                Err(e) => {
                    proof {
                        let chain = ws.push(world@);
                        assert forall|k: int| 0 <= k < i + 1 implies #[trigger] build_step(
                            pre,
                            self.children@,
                            node,
                            chain,
                            k,
                            Err::<(), ReactorError>(e),
                        ) by {
                            if k < i {
                                assert(build_step(pre, self.children@, node, ws, k, Ok(())));
                            }
                        }
                        assert(children_built(pre, self.children@, node, chain, Err::<(), ReactorError>(e)));
                        assert(chain[0] == old(world)@ && chain[chain.len() - 1] == world@);
                        assert(old(self).children() == pre);
                        assert(children_built(old(self).children(), self.children(), node, chain, Err::<(), ReactorError>(e)));
                        assert(fragment_built::<T, C>(
                            *old(self),
                            *self,
                            node,
                            old(world)@,
                            world@,
                            Err::<(), ReactorError>(e),
                        ));
                    }
                    return Err(e);
                },
                Ok(id) => {
                    let ghost spawned = world@;
                    let res = self.children[i].view.build(id, world);
                    self.children[i].entity = Some(id);
                    proof {
                        let chain = ws.push(world@);
                        assert forall|k: int| 0 <= k < i + 1 implies #[trigger] build_step(
                            pre,
                            self.children@,
                            node,
                            chain,
                            k,
                            res,
                        ) by {
                            if k < i {
                                assert(build_step(pre, done, node, ws, k, Ok(())));
                                assert(self.children@[k] == done[k]);
                            }
                        }
                        ws = chain;
                    }
                    if res.is_err() {
                        proof {
                            assert forall|k: int| i + 1 <= k < n implies #[trigger] self.children@[k]
                                == pre[k] by {
                                assert(done[k] == pre[k]);
                            }
                            assert(children_built(old(self).children(), self.children(), node, ws, res));
                            assert(fragment_built::<T, C>(*old(self), *self, node, old(world)@, world@, res));
                        }
                        return res;
                    }
                    assert(res == Ok::<(), ReactorError>(())) by {
                        assert(res is Ok);
                        assert(res->Ok_0 == ());
                    }
                },
            }
            i += 1;
        }
        proof {
            assert(children_built(old(self).children(), self.children(), node, ws, Ok::<(), ReactorError>(())));
        }
        Ok(())
    }

    fn react(&mut self, node: NodeId, world: &mut Store<T>, tracking: &mut TrackingScope) -> (res: Result<
        (),
        ReactorError,
    >)
        ensures
            *final(self) == *old(self),
            final(world)@ == old(world)@,
            final(tracking).deps() == old(tracking).deps(),
            final(tracking).tick() == old(tracking).tick(),
            res is Ok,
    {
        Ok(())
    }

    fn raze(&mut self, node: NodeId, world: &mut Store<T>) -> (res: Result<(), ReactorError>)
        ensures
            fragment_inv::<T, C>(*final(self)),
            fragment_razed::<T, C>(*old(self), *final(self), node, old(world)@, final(world)@, res),
    {
        let ghost pre = self.children@;
        let ghost mut ws: Seq<StoreView<T>> = seq![world@];
        let n = self.children.len();
        let mut i: usize = 0;
        while i < n
            invariant
                i <= n,
                n == pre.len(),
                pre == old(self).children@,
                self.children@.len() == n,
                world.wf(),
                ws.len() == i + 1,
                ws[0] == old(world)@,
                ws[i as int] == world@,
                forall|k: int| 0 <= k < n ==> (#[trigger] self.children@[k]).view.inv(),
                forall|k: int| 0 <= k < i ==> #[trigger] raze_step(pre, self.children@, ws, k, Ok(())),
                forall|k: int| i <= k < n ==> #[trigger] self.children@[k] == pre[k],
            decreases n - i,
        {
            let ghost done = self.children@;
            let res = match self.children[i].entity {
                Some(id) => {
                    let res = self.children[i].view.raze(id, world);
                    self.children[i].entity = None;
                    res
                },
                None => Err(ReactorError::InvalidState),
            };
            proof {
                let chain = ws.push(world@);
                assert forall|k: int| 0 <= k < i + 1 implies #[trigger] raze_step(
                    pre,
                    self.children@,
                    chain,
                    k,
                    res,
                ) by {
                    if k < i {
                        assert(raze_step(pre, done, ws, k, Ok(())));
                        assert(self.children@[k] == done[k]);
                    }
                }
                assert forall|k: int| i + 1 <= k < n implies #[trigger] self.children@[k] == pre[k] by {
                    assert(done[k] == pre[k]);
                }
                ws = chain;
            }
            if res.is_err() {
                proof {
                    assert(children_razed(old(self).children(), self.children(), ws, res));
                    assert(fragment_razed::<T, C>(*old(self), *self, node, old(world)@, world@, res));
                }
                return res;
            }
            assert(res == Ok::<(), ReactorError>(())) by {
                assert(res is Ok);
                assert(res->Ok_0 == ());
            }
            i += 1;
        }
        let ghost last = world@;
        world.despawn_recursive(node);
        proof {
            assert(children_razed(old(self).children(), self.children(), ws, Ok::<(), ReactorError>(())) && ws[0]
                == old(world)@ && ws[ws.len() - 1].wf() && world@ == ws[ws.len() - 1].razed(node));
        }
        Ok(())
    }
}

} // verus!
