//! A conditional view: it shows one of two branches, chosen by a test, and
//! swaps them when the test changes its mind. The branch that leaves is
//! razed to the last node before the branch that comes is built.

use vstd::prelude::*;
use crate::context::Rcx;
use crate::derived::{tracked_run, DerivedFn};
use crate::error::ReactorError;
use crate::node_span::NodeSpan;
use crate::tracking_scope::{Dependency, NodeId, TrackingScope};
use crate::view::ReactiveView;
use crate::store::{Store, StoreView};

verus! {

/// Which branch of a conditional view is built: the view and the node it
/// was built on.
pub enum CondState<Pos, Neg> {
    Unset,
    True((Pos, NodeId)),
    False((Neg, NodeId)),
}

impl<Pos, Neg> CondState<Pos, Neg> {
    /// The value of the test that the built branch stands for.
    pub open spec fn branch(self) -> Option<bool> {
        match self {
            CondState::Unset => None,
            CondState::True(_) => Some(true),
            CondState::False(_) => Some(false),
        }
    }

    /// The node that the built branch stands on.
    pub open spec fn node(self) -> Option<NodeId> {
        match self {
            CondState::Unset => None,
            CondState::True(b) => Some(b.1),
            CondState::False(b) => Some(b.1),
        }
    }

    /// The value of the test that the built branch stands for.
    pub fn active_branch(&self) -> (branch: Option<bool>)
        ensures
            branch == self.branch(),
    {
        match self {
            CondState::Unset => None,
            CondState::True(_) => Some(true),
            CondState::False(_) => Some(false),
        }
    }

    /// The node that the built branch stands on.
    pub fn active_node(&self) -> (node: Option<NodeId>)
        ensures
            node == self.node(),
    {
        match self {
            CondState::Unset => None,
            CondState::True(b) => Some(b.1),
            CondState::False(b) => Some(b.1),
        }
    }
}

/// The factory can be called, and every view that it makes is valid.
pub open spec fn makes_views<T, V: ReactiveView<T>, Factory: Fn() -> V>(branch: Factory) -> bool {
    &&& call_requires(branch, ())
    &&& forall|v: V| #[trigger] call_ensures(branch, (), v) ==> v.inv()
}

/// A branch was made by `branch`, built on a new node below `parent`, and
/// `parent` was then marked: what it shows has changed. Where `parent` is
/// not alive nothing is made.
pub open spec fn branch_state_built<T, V: ReactiveView<T>, Factory: Fn() -> V>(
    branch: Factory,
    parent: NodeId,
    before: StoreView<T>,
    out: Option<(V, NodeId)>,
    after: StoreView<T>,
    res: Result<(), ReactorError>,
) -> bool {
    if !before.alive(parent) {
        &&& out is None
        &&& after == before
        &&& res == Err::<(), ReactorError>(ReactorError::MissingDependency)
    } else {
        &&& out matches Some(b)
        &&& b.1 == before.nodes.len()
        &&& exists|fresh: V, mid: StoreView<T>| #[trigger]
            made_and_marked(branch, fresh, b.0, b.1, parent, before, mid, after, res)
    }
}

/// The view `fresh` came from `branch`, was built on node `n`, which had
/// just been spawned below `parent`, and `parent` was marked afterwards.
pub open spec fn made_and_marked<T, V: ReactiveView<T>, Factory: Fn() -> V>(
    branch: Factory,
    fresh: V,
    built: V,
    n: NodeId,
    parent: NodeId,
    before: StoreView<T>,
    mid: StoreView<T>,
    after: StoreView<T>,
    res: Result<(), ReactorError>,
) -> bool {
    &&& call_ensures(branch, (), fresh)
    &&& V::built(fresh, built, n, before.spawned(Some(parent)), mid, res)
    &&& after == mid.with_mark(parent, true)
}

/// The view `v`, built on node `n`, was razed with result `res`, and what
/// was left of its subtree was despawned.
pub open spec fn view_razed<T, V: ReactiveView<T>>(
    v: V,
    n: NodeId,
    before: StoreView<T>,
    after: StoreView<T>,
    res: Result<(), ReactorError>,
) -> bool {
    exists|post: V, mid: StoreView<T>| #[trigger]
        V::razed(v, post, n, before, mid, res) && mid.wf() && after == mid.razed(n)
}

/// The built branch of `state`, if there is one, was razed with its whole
/// subtree. Where no branch is built nothing happens.
pub open spec fn branch_razed<T, Pos: ReactiveView<T>, Neg: ReactiveView<T>>(
    state: CondState<Pos, Neg>,
    before: StoreView<T>,
    after: StoreView<T>,
    res: Result<(), ReactorError>,
) -> bool {
    match state {
        CondState::Unset => after == before && res is Ok,
        CondState::True(b) => view_razed(b.0, b.1, before, after, res) && after.subtree_absent(b.1),
        CondState::False(b) => view_razed(b.0, b.1, before, after, res) && after.subtree_absent(b.1),
    }
}

/// A conditional view which shows one of two children depending on a test.
pub struct Cond<Test, Pos, PosFn, Neg, NegFn> {
    test: Test,
    pos: PosFn,
    neg: NegFn,
    state: CondState<Pos, Neg>,
}

impl<Test, Pos, PosFn: Fn() -> Pos, Neg, NegFn: Fn() -> Neg> Cond<Test, Pos, PosFn, Neg, NegFn> {
    /// The test.
    pub closed spec fn test(&self) -> Test {
        self.test
    }

    /// The factory of the branch for a true test.
    pub closed spec fn pos(&self) -> PosFn {
        self.pos
    }

    /// The factory of the branch for a false test.
    pub closed spec fn neg(&self) -> NegFn {
        self.neg
    }

    /// Which branch is built.
    pub closed spec fn state(&self) -> CondState<Pos, Neg> {
        self.state
    }

    /// The same view with another state.
    pub open spec fn same_parts(&self, other: &Self) -> bool {
        &&& self.test() == other.test()
        &&& self.pos() == other.pos()
        &&& self.neg() == other.neg()
    }

    /// Construct a new conditional view. No branch is built yet.
    pub fn new(test: Test, pos: PosFn, neg: NegFn) -> (cond: Self)
        ensures
            cond.test() == test,
            cond.pos() == pos,
            cond.neg() == neg,
            cond.state() is Unset,
    {
        Self { test, pos, neg, state: CondState::Unset }
    }

    /// Which branch is built: `None` before the view is built, else the
    /// value of the test that the branch stands for.
    pub fn active_branch(&self) -> (branch: Option<bool>)
        ensures
            branch == self.state().branch(),
    {
        self.state.active_branch()
    }

    /// The node that the built branch stands on.
    pub fn active_node(&self) -> (node: Option<NodeId>)
        ensures
            node == self.state().node(),
    {
        self.state.active_node()
    }
}

/// Makes a branch with `branch`, builds it on a new node below `parent`,
/// and marks `parent` as changed. Fails with `MissingDependency`, and makes
/// nothing, when `parent` is not alive; an error of the branch's own
/// `build` is handed on with the branch.
pub fn build_branch_state<T, V: ReactiveView<T>, Factory: Fn() -> V>(
    branch: &Factory,
    parent: NodeId,
    world: &mut Store<T>,
) -> (out: (Option<(V, NodeId)>, Result<(), ReactorError>))
    requires
        old(world).wf(),
        makes_views::<T, V, Factory>(*branch),
    ensures
        final(world).wf(),
        out.0 matches Some(b) ==> b.0.inv(),
        branch_state_built(*branch, parent, old(world)@, out.0, final(world)@, out.1),
{
    match world.spawn_child(parent) {
        Err(e) => (None, Err(e)),
        Ok(node) => {
            let mut view = branch();
            let ghost fresh = view;
            let res = view.build(node, world);
            let ghost mid = world@;
            let _ = world.mark_display_changed(parent);
            proof {
                let b = (view, node);
                assert(made_and_marked(*branch, fresh, b.0, b.1, parent, old(world)@, mid, world@, res));
                assert(old(world)@.alive(parent));
                assert(b.1 == old(world)@.nodes.len());
                assert(branch_state_built(*branch, parent, old(world)@, Some(b), world@, res));
            }
            (Some((view, node)), res)
        },
    }
}

/// Razes `view`, which was built on `node`, despawns what is left of its
/// subtree, and hands on the result of the view's own `raze`.
pub fn raze_branch<T, V: ReactiveView<T>>(view: V, node: NodeId, world: &mut Store<T>) -> (res: Result<
    (),
    ReactorError,
>)
    requires
        view.inv(),
        old(world).wf(),
    ensures
        final(world).wf(),
        view_razed(view, node, old(world)@, final(world)@, res),
        final(world)@.subtree_absent(node),
{
    let mut view = view;
    let ghost pre = view;
    let res = view.raze(node, world);
    let ghost mid = world@;
    world.despawn_recursive(node);
    proof {
        assert(V::razed(pre, view, node, old(world)@, mid, res) && mid.wf() && world@ == mid.razed(node));
    }
    res
}

/// The state that follows when the branch for `c` has been made: the
/// branch, or no branch where none could be made.
pub open spec fn made<Pos, Neg>(c: bool, pos: Option<(Pos, NodeId)>, neg: Option<(Neg, NodeId)>) -> CondState<
    Pos,
    Neg,
> {
    if c {
        match pos {
            Some(b) => CondState::True(b),
            None => CondState::Unset,
        }
    } else {
        match neg {
            Some(b) => CondState::False(b),
            None => CondState::Unset,
        }
    }
}

/// The view was brought to show the branch for `c`. Where that branch is
/// built already nothing happens. Else the built branch, if any, is razed
/// first, with result `razed`, and `mid` is the store that this leaves: it
/// holds nothing of the old branch. Where the raze has failed the view is
/// left without a branch and the failure is the result. Else the new
/// branch is made in `mid`.
pub open spec fn switched<
    T,
    Test: DerivedFn<T, bool>,
    Pos: ReactiveView<T>,
    PosFn: Fn() -> Pos,
    Neg: ReactiveView<T>,
    NegFn: Fn() -> Neg,
>(
    pre: Cond<Test, Pos, PosFn, Neg, NegFn>,
    post: Cond<Test, Pos, PosFn, Neg, NegFn>,
    c: bool,
    node: NodeId,
    before: StoreView<T>,
    after: StoreView<T>,
    res: Result<(), ReactorError>,
) -> bool {
    &&& pre.same_parts(&post)
    &&& if pre.state().branch() == Some(c) {
        &&& post.state() == pre.state()
        &&& after == before
        &&& res is Ok
    } else {
        exists|
            mid: StoreView<T>,
            razed: Result<(), ReactorError>,
            pos: Option<(Pos, NodeId)>,
            neg: Option<(Neg, NodeId)>,
        |
            {
                &&& #[trigger] branch_razed(pre.state(), before, mid, razed)
                &&& #[trigger] made(c, pos, neg) == post.state()
                &&& razed is Err ==> pos is None && neg is None && after == mid && res == razed
                &&& razed is Ok && c ==> branch_state_built(pre.pos(), node, mid, pos, after, res)
                &&& razed is Ok && !c ==> branch_state_built(pre.neg(), node, mid, neg, after, res)
            }
    }
}

/// Shows the branch for `c`: razes the other branch, if it is built, and
/// only then makes the new one.
fn switch_to<
    T,
    Test: DerivedFn<T, bool>,
    Pos: ReactiveView<T>,
    PosFn: Fn() -> Pos,
    Neg: ReactiveView<T>,
    NegFn: Fn() -> Neg,
>(
    cond: &mut Cond<Test, Pos, PosFn, Neg, NegFn>,
    c: bool,
    node: NodeId,
    world: &mut Store<T>,
) -> (res: Result<(), ReactorError>)
    requires
        old(cond).inv(),
        old(world).wf(),
    ensures
        final(cond).inv(),
        final(world).wf(),
        switched(*old(cond), *final(cond), c, node, old(world)@, final(world)@, res),
{
    if cond.state.active_branch() == Some(c) {
        return Ok(());
    }
    let mut leaving = CondState::Unset;
    std::mem::swap(&mut cond.state, &mut leaving);
    let razed = match leaving {
        CondState::Unset => Ok(()),
        CondState::True(b) => raze_branch(b.0, b.1, world),
        CondState::False(b) => raze_branch(b.0, b.1, world),
    };
    let ghost mid = world@;
    assert(branch_razed(old(cond).state(), old(world)@, mid, razed));
    if razed.is_err() {
        assert(made::<Pos, Neg>(c, None, None) == cond.state());
        return razed;
    }
    if c {
        let (built, res) = build_branch_state(&cond.pos, node, world);
        match built {
            Some(b) => {
                cond.state = CondState::True(b);
            },
            None => {},
        }
        proof {
            assert(made::<Pos, Neg>(c, built, None) == cond.state());
        }
        res
    } else {
        let (built, res) = build_branch_state(&cond.neg, node, world);
        match built {
            Some(b) => {
                cond.state = CondState::False(b);
            },
            None => {},
        }
        proof {
            assert(made::<Pos, Neg>(c, None, built) == cond.state());
        }
        res
    }
}

/// Runs the test on behalf of `node` and adds what it reads to `tracking`:
/// the reads belong to the conditional view, not to the branch that is
/// built afterwards.
fn evaluate<T, Test: DerivedFn<T, bool>>(test: &Test, node: NodeId, world: &Store<T>, tracking: &mut TrackingScope) -> (c:
    bool)
    requires
        world.wf(),
    ensures
        final(tracking).tick() == old(tracking).tick(),
        tracked_run(*test, world@, node, c, old(tracking).deps(), final(tracking).deps()),
{
    let mut cx = Rcx::new(world, node, TrackingScope::new(tracking.baseline()));
    let c = test.call(&mut cx);
    let read = cx.into_tracking();
    tracking.merge(&read);
    assert(test.computes(world@, node, c, read.deps()));
    c
}

/// The invariant of a conditional view: its factories make valid views,
/// and the built branch, if any, is valid.
pub open spec fn cond_inv<
    T,
    Test: DerivedFn<T, bool>,
    Pos: ReactiveView<T>,
    PosFn: Fn() -> Pos,
    Neg: ReactiveView<T>,
    NegFn: Fn() -> Neg,
>(view: Cond<Test, Pos, PosFn, Neg, NegFn>) -> bool {
    &&& makes_views::<T, Pos, PosFn>(view.pos())
    &&& makes_views::<T, Neg, NegFn>(view.neg())
    &&& match view.state() {
        CondState::Unset => true,
        CondState::True(b) => b.0.inv(),
        CondState::False(b) => b.0.inv(),
    }
}

/// What a conditional view shows: what its built branch shows.
pub open spec fn cond_shown<
    T,
    Test: DerivedFn<T, bool>,
    Pos: ReactiveView<T>,
    PosFn: Fn() -> Pos,
    Neg: ReactiveView<T>,
    NegFn: Fn() -> Neg,
>(view: Cond<Test, Pos, PosFn, Neg, NegFn>) -> Seq<NodeId> {
    match view.state() {
        CondState::Unset => Seq::empty(),
        CondState::True(b) => b.0.shown(),
        CondState::False(b) => b.0.shown(),
    }
}

/// A conditional view stands below a parent view: a node without a parent
/// is refused with `MissingDependency`, and nothing happens. Else building
/// runs the test once, shows the branch for its value, and attaches to
/// `node` a tracking scope that holds what the test read, with the tick
/// at which the build began as its baseline.
pub open spec fn cond_built<
    T,
    Test: DerivedFn<T, bool>,
    Pos: ReactiveView<T>,
    PosFn: Fn() -> Pos,
    Neg: ReactiveView<T>,
    NegFn: Fn() -> Neg,
>(
    pre: Cond<Test, Pos, PosFn, Neg, NegFn>,
    post: Cond<Test, Pos, PosFn, Neg, NegFn>,
    node: NodeId,
    before: StoreView<T>,
    after: StoreView<T>,
    res: Result<(), ReactorError>,
) -> bool {
    if before.parent(node) is None {
        &&& post == pre
        &&& after == before
        &&& res == Err::<(), ReactorError>(ReactorError::MissingDependency)
    } else {
        exists|c: bool, read: Set<Dependency>, mid: StoreView<T>, switch: Result<(), ReactorError>|
            {
                &&& #[trigger] pre.test().computes(before, node, c, read)
                &&& #[trigger] switched(pre, post, c, node, before, mid, switch)
                &&& if switch is Err {
                    after == mid && res == switch
                } else if !mid.alive(node) {
                    after == mid && res == Err::<(), ReactorError>(ReactorError::MissingDependency)
                } else {
                    &&& res is Ok
                    &&& after.scope(node) matches Some(scope)
                    &&& scope.tick() == before.tick
                    &&& scope.deps() == read
                    &&& after == mid.with_scope(node, after.scope(node))
                }
            }
    }
}

/// Reacting before the view is built fails with `InvalidState` and changes
/// nothing. Else the test runs again, what it reads is added to the scope,
/// and the view is brought to show the branch for its value.
pub open spec fn cond_reacted<
    T,
    Test: DerivedFn<T, bool>,
    Pos: ReactiveView<T>,
    PosFn: Fn() -> Pos,
    Neg: ReactiveView<T>,
    NegFn: Fn() -> Neg,
>(
    pre: Cond<Test, Pos, PosFn, Neg, NegFn>,
    post: Cond<Test, Pos, PosFn, Neg, NegFn>,
    node: NodeId,
    before: StoreView<T>,
    after: StoreView<T>,
    had: Set<Dependency>,
    read: Set<Dependency>,
    res: Result<(), ReactorError>,
) -> bool {
    if pre.state() is Unset {
        &&& post == pre
        &&& after == before
        &&& read == had
        &&& res == Err::<(), ReactorError>(ReactorError::InvalidState)
    } else {
        exists|c: bool| #[trigger]
            tracked_run(pre.test(), before, node, c, had, read) && switched(pre, post, c, node, before, after, res)
    }
}

/// Razing a view that is not built does nothing. Razing a built view razes
/// its branch, with result `res`, and then despawns `node` with what is
/// left below it; the view is left without a branch.
pub open spec fn cond_razed<
    T,
    Test: DerivedFn<T, bool>,
    Pos: ReactiveView<T>,
    PosFn: Fn() -> Pos,
    Neg: ReactiveView<T>,
    NegFn: Fn() -> Neg,
>(
    pre: Cond<Test, Pos, PosFn, Neg, NegFn>,
    post: Cond<Test, Pos, PosFn, Neg, NegFn>,
    node: NodeId,
    before: StoreView<T>,
    after: StoreView<T>,
    res: Result<(), ReactorError>,
) -> bool {
    &&& pre.same_parts(&post)
    &&& post.state() is Unset
    &&& if pre.state() is Unset {
        after == before && res is Ok
    } else {
        exists|mid: StoreView<T>| #[trigger]
            branch_razed(pre.state(), before, mid, res) && mid.wf() && after == mid.razed(node)
    }
}

impl<
    T,
    Test: DerivedFn<T, bool>,
    Pos: ReactiveView<T>,
    PosFn: Fn() -> Pos,
    Neg: ReactiveView<T>,
    NegFn: Fn() -> Neg,
> ReactiveView<T> for Cond<Test, Pos, PosFn, Neg, NegFn> {
    open spec fn inv(&self) -> bool {
        cond_inv::<T, Test, Pos, PosFn, Neg, NegFn>(*self)
    }

    open spec fn shown(&self) -> Seq<NodeId> {
        cond_shown::<T, Test, Pos, PosFn, Neg, NegFn>(*self)
    }

    open spec fn built(
        pre: Self,
        post: Self,
        node: NodeId,
        before: StoreView<T>,
        after: StoreView<T>,
        res: Result<(), ReactorError>,
    ) -> bool {
        cond_built::<T, Test, Pos, PosFn, Neg, NegFn>(pre, post, node, before, after, res)
    }

    open spec fn reacted(
        pre: Self,
        post: Self,
        node: NodeId,
        before: StoreView<T>,
        after: StoreView<T>,
        had: Set<Dependency>,
        read: Set<Dependency>,
        res: Result<(), ReactorError>,
    ) -> bool {
        cond_reacted::<T, Test, Pos, PosFn, Neg, NegFn>(pre, post, node, before, after, had, read, res)
    }

    open spec fn razed(
        pre: Self,
        post: Self,
        node: NodeId,
        before: StoreView<T>,
        after: StoreView<T>,
        res: Result<(), ReactorError>,
    ) -> bool {
        cond_razed::<T, Test, Pos, PosFn, Neg, NegFn>(pre, post, node, before, after, res)
    }

    fn nodes(&self) -> (span: NodeSpan)
        ensures
            span.flat() == cond_shown::<T, Test, Pos, PosFn, Neg, NegFn>(*self),
            self.state() is Unset ==> span is Empty,
    {
        match &self.state {
            CondState::Unset => NodeSpan::Empty,
            CondState::True(b) => b.0.nodes(),
            CondState::False(b) => b.0.nodes(),
        }
    }

    fn build(&mut self, node: NodeId, world: &mut Store<T>) -> (res: Result<(), ReactorError>)
        ensures
            cond_inv::<T, Test, Pos, PosFn, Neg, NegFn>(*final(self)),
            cond_built::<T, Test, Pos, PosFn, Neg, NegFn>(*old(self), *final(self), node, old(world)@, final(world)@, res),
    {
        if world.parent(node).is_none() {
            return Err(ReactorError::MissingDependency);
        }
        let mut tracking = TrackingScope::new(world.change_tick());
        let c = evaluate(&self.test, node, world, &mut tracking);
        let ghost read = choose|read: Set<Dependency>| #[trigger]
            self.test().computes(old(world)@, node, c, read) && tracking.deps() == Set::<Dependency>::empty().union(
                read,
            );
        assert(tracking.deps() =~= read);
        let switch = switch_to(self, c, node, world);
        let ghost mid = world@;
        if switch.is_err() {
            assert(old(self).test().computes(old(world)@, node, c, read) && switched(
                *old(self),
                *self,
                c,
                node,
                old(world)@,
                mid,
                switch,
            ));
            return switch;
        }
        let res = world.insert_scope(node, tracking);
        assert(old(self).test().computes(old(world)@, node, c, read) && switched(
            *old(self),
            *self,
            c,
            node,
            old(world)@,
            mid,
            switch,
        ));
        res
    }

    fn react(&mut self, node: NodeId, world: &mut Store<T>, tracking: &mut TrackingScope) -> (res: Result<
        (),
        ReactorError,
    >)
        ensures
            final(tracking).tick() == old(tracking).tick(),
            cond_inv::<T, Test, Pos, PosFn, Neg, NegFn>(*final(self)),
            cond_reacted::<T, Test, Pos, PosFn, Neg, NegFn>(
                *old(self),
                *final(self),
                node,
                old(world)@,
                final(world)@,
                old(tracking).deps(),
                final(tracking).deps(),
                res,
            ),
    {
        if self.state.active_branch().is_none() {
            return Err(ReactorError::InvalidState);
        }
        let c = evaluate(&self.test, node, world, tracking);
        let res = switch_to(self, c, node, world);
        assert(tracked_run(old(self).test(), old(world)@, node, c, old(tracking).deps(), tracking.deps())
            && switched(*old(self), *self, c, node, old(world)@, world@, res));
        res
    }

    fn raze(&mut self, node: NodeId, world: &mut Store<T>) -> (res: Result<(), ReactorError>)
        ensures
            cond_inv::<T, Test, Pos, PosFn, Neg, NegFn>(*final(self)),
            cond_razed::<T, Test, Pos, PosFn, Neg, NegFn>(*old(self), *final(self), node, old(world)@, final(world)@, res),
    {
        let mut leaving = CondState::Unset;
        std::mem::swap(&mut self.state, &mut leaving);
        let res = match leaving {
            CondState::Unset => {
                return Ok(());
            },
            CondState::True(b) => raze_branch(b.0, b.1, world),
            CondState::False(b) => raze_branch(b.0, b.1, world),
        };
        let ghost mid = world@;
        world.despawn_recursive(node);
        proof {
            assert(branch_razed(old(self).state(), old(world)@, mid, res) && mid.wf() && world@ == mid.razed(node));
        }
        res
    }
}

/// At most one branch is built at any time, and a swap never overlaps:
/// when a switch to the branch for `c` succeeds, that branch and no other
/// is the built one afterwards; and where another branch was built before,
/// it was razed first, and the store `mid` in which the new branch was then
/// made held nothing of the old branch's subtree.
pub proof fn lemma_switch_is_exclusive<
    T,
    Test: DerivedFn<T, bool>,
    Pos: ReactiveView<T>,
    PosFn: Fn() -> Pos,
    Neg: ReactiveView<T>,
    NegFn: Fn() -> Neg,
>(
    pre: Cond<Test, Pos, PosFn, Neg, NegFn>,
    post: Cond<Test, Pos, PosFn, Neg, NegFn>,
    c: bool,
    node: NodeId,
    before: StoreView<T>,
    after: StoreView<T>,
    res: Result<(), ReactorError>,
)
    requires
        switched(pre, post, c, node, before, after, res),
    ensures
        res is Ok ==> post.state().branch() == Some(c),
        post.state().branch() == Some(c) || post.state() is Unset,
        pre.state().branch() == Some(!c) ==> exists|mid: StoreView<T>, razed: Result<(), ReactorError>|
            {
                &&& #[trigger] branch_razed(pre.state(), before, mid, razed)
                &&& mid.subtree_absent(pre.state().node()->Some_0)
                &&& razed is Err ==> after == mid && post.state() is Unset && res == razed
                &&& razed is Ok && c ==> exists|made: Option<(Pos, NodeId)>| #[trigger]
                    branch_state_built(pre.pos(), node, mid, made, after, res)
                &&& razed is Ok && !c ==> exists|made: Option<(Neg, NodeId)>| #[trigger]
                    branch_state_built(pre.neg(), node, mid, made, after, res)
            },
{
    if pre.state().branch() != Some(c) {
        let (mid, razed, pos, neg) = choose|
            mid: StoreView<T>,
            razed: Result<(), ReactorError>,
            pos: Option<(Pos, NodeId)>,
            neg: Option<(Neg, NodeId)>,
        |
            {
                &&& #[trigger] branch_razed(pre.state(), before, mid, razed)
                &&& #[trigger] made(c, pos, neg) == post.state()
                &&& razed is Err ==> pos is None && neg is None && after == mid && res == razed
                &&& razed is Ok && c ==> branch_state_built(pre.pos(), node, mid, pos, after, res)
                &&& razed is Ok && !c ==> branch_state_built(pre.neg(), node, mid, neg, after, res)
            };
        if pre.state().branch() == Some(!c) {
            assert(mid.subtree_absent(pre.state().node()->Some_0));
            if razed is Ok {
                if c {
                    assert(branch_state_built(pre.pos(), node, mid, pos, after, res));
                } else {
                    assert(branch_state_built(pre.neg(), node, mid, neg, after, res));
                }
            }
            assert(branch_razed(pre.state(), before, mid, razed));
        }
    }
}

/// A reaction of a built conditional view follows its test: the test ran
/// once, on the store as the reaction found it, and what it read was added
/// to the scope; where the reaction succeeds, the branch for the value of
/// the test is the built one afterwards; and where that branch was built
/// already, neither the view nor the store has changed.
pub proof fn lemma_reaction_follows_test<
    T,
    Test: DerivedFn<T, bool>,
    Pos: ReactiveView<T>,
    PosFn: Fn() -> Pos,
    Neg: ReactiveView<T>,
    NegFn: Fn() -> Neg,
>(
    pre: Cond<Test, Pos, PosFn, Neg, NegFn>,
    post: Cond<Test, Pos, PosFn, Neg, NegFn>,
    node: NodeId,
    before: StoreView<T>,
    after: StoreView<T>,
    had: Set<Dependency>,
    read: Set<Dependency>,
    res: Result<(), ReactorError>,
)
    requires
        !(pre.state() is Unset),
        cond_reacted(pre, post, node, before, after, had, read, res),
    ensures
        exists|c: bool, tested: Set<Dependency>|
            {
                &&& #[trigger] pre.test().computes(before, node, c, tested)
                &&& read == had.union(tested)
                &&& res is Ok ==> post.state().branch() == Some(c)
                &&& pre.state().branch() == Some(c) ==> post.state() == pre.state() && after == before && res is Ok
            },
{
    let c = choose|c: bool| #[trigger]
        tracked_run(pre.test(), before, node, c, had, read) && switched(pre, post, c, node, before, after, res);
    let tested = choose|tested: Set<Dependency>| #[trigger]
        pre.test().computes(before, node, c, tested) && read == had.union(tested);
    lemma_switch_is_exclusive(pre, post, c, node, before, after, res);
    assert(pre.test().computes(before, node, c, tested));
}

/// Creates a conditional view. No branch is built yet; where the factories
/// make valid views, the view is valid.
pub fn cond<
    T,
    Test: DerivedFn<T, bool>,
    Pos: ReactiveView<T>,
    PosFn: Fn() -> Pos,
    Neg: ReactiveView<T>,
    NegFn: Fn() -> Neg,
>(test: Test, pos: PosFn, neg: NegFn) -> (c: Cond<Test, Pos, PosFn, Neg, NegFn>)
    ensures
        c.test() == test,
        c.pos() == pos,
        c.neg() == neg,
        c.state() is Unset,
        makes_views::<T, Pos, PosFn>(pos) && makes_views::<T, Neg, NegFn>(neg) ==> c.inv() && cond_inv(c),
{
    Cond::new(test, pos, neg)
}

} // verus!
