//! Reactions and the driver that re-runs them: once per tick the driver
//! looks at every reaction's tracking scope and runs again those whose
//! scope has gone stale.

use vstd::prelude::*;
use crate::cond::Cond;
use crate::context::Ecx;
use crate::derived::DerivedFn;
use crate::error::ReactorError;
use crate::fragment::Fragment;
use crate::tracking_scope::{Dependency, NodeId, TrackingScope};
use crate::view::ReactiveView;
use crate::store::{Store, StoreView};

verus! {

/// A reaction to changes in dependencies. A reaction is not run when it is
/// registered: whoever creates it calls `react` once, so that its first run
/// happens there and then.
///
/// `ran` says what one run may do. Each reaction states it of its own code;
/// of a reaction that states nothing the engine assumes nothing.
pub trait Reaction<T>: Sized {
    /// The invariant of the reaction. A reaction that states none has none.
    open spec fn valid(&self) -> bool {
        true
    }

    /// A run on behalf of `owner` may turn `pre` into `post`, the store
    /// `before` into `after` and the dependencies of the tracking scope from
    /// `had` into `read`, and return `res`. A reaction that states nothing
    /// may do anything.
    open spec fn ran(
        pre: Self,
        post: Self,
        owner: NodeId,
        before: StoreView<T>,
        after: StoreView<T>,
        had: Set<Dependency>,
        read: Set<Dependency>,
        res: Result<(), ReactorError>,
    ) -> bool {
        true
    }

    /// Runs the reaction on behalf of `owner`. It may edit the store; what
    /// it reads it records in `tracking`.
    fn react(&mut self, owner: NodeId, world: &mut Store<T>, tracking: &mut TrackingScope) -> (res: Result<
        (),
        ReactorError,
    >)
        requires
            old(self).valid(),
            old(world).wf(),
        ensures
            final(self).valid(),
            final(world).wf(),
            Self::ran(
                *old(self),
                *final(self),
                owner,
                old(world)@,
                final(world)@,
                old(tracking).deps(),
                final(tracking).deps(),
                res,
            ),
    ;
}

/// A fragment reacts as a view does: it has nothing to do.
impl<T, C: ReactiveView<T>> Reaction<T> for Fragment<C> {
    open spec fn valid(&self) -> bool {
        self.inv()
    }

    open spec fn ran(
        pre: Self,
        post: Self,
        owner: NodeId,
        before: StoreView<T>,
        after: StoreView<T>,
        had: Set<Dependency>,
        read: Set<Dependency>,
        res: Result<(), ReactorError>,
    ) -> bool {
        <Self as ReactiveView<T>>::reacted(pre, post, owner, before, after, had, read, res)
    }

    fn react(&mut self, owner: NodeId, world: &mut Store<T>, tracking: &mut TrackingScope) -> (res: Result<
        (),
        ReactorError,
    >) {
        ReactiveView::react(self, owner, world, tracking)
    }
}

/// A conditional view reacts as a view does: it runs its test again.
impl<
    T,
    Test: DerivedFn<T, bool>,
    Pos: ReactiveView<T>,
    PosFn: Fn() -> Pos,
    Neg: ReactiveView<T>,
    NegFn: Fn() -> Neg,
> Reaction<T> for Cond<Test, Pos, PosFn, Neg, NegFn> {
    open spec fn valid(&self) -> bool {
        self.inv()
    }

    open spec fn ran(
        pre: Self,
        post: Self,
        owner: NodeId,
        before: StoreView<T>,
        after: StoreView<T>,
        had: Set<Dependency>,
        read: Set<Dependency>,
        res: Result<(), ReactorError>,
    ) -> bool {
        <Self as ReactiveView<T>>::reacted(pre, post, owner, before, after, had, read, res)
    }

    fn react(&mut self, owner: NodeId, world: &mut Store<T>, tracking: &mut TrackingScope) -> (res: Result<
        (),
        ReactorError,
    >) {
        ReactiveView::react(self, owner, world, tracking)
    }
}

/// The code of an effect: it runs in a context through which it may read
/// and write the store.
pub trait EffectFn<T>: Sized {
    /// The invariant of the effect. An effect that states none has none.
    open spec fn valid(&self) -> bool {
        true
    }

    /// A run on behalf of `owner` may turn `pre` into `post` and the store
    /// `before` into `after`, and read `read`. An effect that states
    /// nothing may do anything.
    open spec fn ran(
        pre: Self,
        post: Self,
        owner: NodeId,
        before: StoreView<T>,
        after: StoreView<T>,
        read: Set<Dependency>,
    ) -> bool {
        true
    }

    /// Runs the effect in a context whose scope is empty; what the scope
    /// holds afterwards is what the run has read.
    fn run(&mut self, cx: &mut Ecx<T>)
        requires
            old(self).valid(),
            old(cx).world.wf(),
            old(cx).tracking.deps() == Set::<Dependency>::empty(),
        ensures
            final(self).valid(),
            final(cx).world.wf(),
            Self::ran(
                *old(self),
                *final(self),
                old(cx).owner,
                old(cx).world@,
                final(cx).world@,
                final(cx).tracking.deps(),
            ),
    ;
}

/// The empty effect: it reads nothing and changes nothing.
impl<T> EffectFn<T> for () {
    open spec fn ran(
        pre: Self,
        post: Self,
        owner: NodeId,
        before: StoreView<T>,
        after: StoreView<T>,
        read: Set<Dependency>,
    ) -> bool {
        after == before && read == Set::<Dependency>::empty()
    }

    fn run(&mut self, cx: &mut Ecx<T>) {
    }
}

/// General effect reaction.
pub struct EffectReaction<F> {
    pub effect: F,
}

impl<T, F: EffectFn<T>> Reaction<T> for EffectReaction<F> {
    open spec fn valid(&self) -> bool {
        self.effect.valid()
    }

    /// The effect runs once; what it read is added to the scope.
    open spec fn ran(
        pre: Self,
        post: Self,
        owner: NodeId,
        before: StoreView<T>,
        after: StoreView<T>,
        had: Set<Dependency>,
        read: Set<Dependency>,
        res: Result<(), ReactorError>,
    ) -> bool {
        &&& res is Ok
        &&& exists|seen: Set<Dependency>| #[trigger]
            F::ran(pre.effect, post.effect, owner, before, after, seen) && read == had.union(seen)
    }

    fn react(&mut self, owner: NodeId, world: &mut Store<T>, tracking: &mut TrackingScope) -> (res: Result<
        (),
        ReactorError,
    >)
        ensures
            final(tracking).tick() == old(tracking).tick(),
    {
        let mut store = Store::new();
        std::mem::swap(world, &mut store);
        let mut ecx = Ecx::new(store, owner, TrackingScope::new(tracking.baseline()));
        self.effect.run(&mut ecx);
        let (mut store, seen) = ecx.finish();
        std::mem::swap(world, &mut store);
        tracking.merge(&seen);
        assert(F::ran(old(self).effect, self.effect, owner, old(world)@, world@, seen.deps())
            && tracking.deps() == old(tracking).deps().union(seen.deps()));
        Ok(())
    }
}

/// Holds a reaction. The node that hosts the reaction's tracking scope owns
/// the cell.
pub struct ReactionCell<R>(pub R);

impl<R> ReactionCell<R> {
    /// Construct a new `ReactionCell`.
    pub fn new(reaction: R) -> (cell: Self)
        ensures
            cell.0 == reaction,
    {
        ReactionCell(reaction)
    }
}

/// Names the node that a reaction works on, where that is not the owner.
#[derive(Clone, Copy, Debug, PartialEq, Eq, Structural)]
pub struct ReactionTarget(pub NodeId);

/// A reaction cell with the node that owns it, the result of its last run,
/// and the number of its runs under the driver.
pub struct Entry<R> {
    pub owner: NodeId,
    pub cell: ReactionCell<R>,
    pub last: Result<(), ReactorError>,
    pub runs: Ghost<nat>,
}

/// The reaction cells that the driver looks after, at most one per node.
pub struct ReactionTable<R> {
    entries: Vec<Entry<R>>,
}

/// The place of the entry of `owner` among `entries`, where there is one.
pub open spec fn place_of<R>(entries: Seq<Entry<R>>, owner: NodeId) -> Option<int> {
    if exists|i: int| 0 <= i < entries.len() && #[trigger] entries[i].owner == owner {
        Some(choose|i: int| 0 <= i < entries.len() && #[trigger] entries[i].owner == owner)
    } else {
        None
    }
}

/// The entries after `owner` has been given the cell `cell`: in place of
/// the cell it had, or at the end where it had none.
pub open spec fn with_cell<R>(entries: Seq<Entry<R>>, owner: NodeId, cell: ReactionCell<R>) -> Seq<Entry<R>> {
    match place_of(entries, owner) {
        Some(i) => entries.update(i, Entry { owner, cell, last: Ok(()), runs: Ghost(0nat) }),
        None => entries.push(Entry { owner, cell, last: Ok(()), runs: Ghost(0nat) }),
    }
}

/// A reaction was registered for `owner` with its first run: the reaction
/// ran once against an empty scope, with result `res`; `owner` then got
/// that scope, with the tick at the end of the run as its baseline; and the
/// reaction, as the run has left it, went into the table under `owner`. An
/// owner that the run itself has razed gets neither scope nor entry.
pub open spec fn registered<T, R: Reaction<T>>(
    pre: Seq<Entry<R>>,
    post: Seq<Entry<R>>,
    reaction: R,
    owner: NodeId,
    before: StoreView<T>,
    after: StoreView<T>,
    res: Result<(), ReactorError>,
) -> bool {
    exists|ran: R, mid: StoreView<T>, read: Set<Dependency>|
        {
            &&& #[trigger] R::ran(reaction, ran, owner, before, mid, Set::empty(), read, res)
            &&& mid.wf()
            &&& rescoped(mid, after, owner, read)
            &&& post == if mid.alive(owner) {
                with_cell(pre, owner, ReactionCell(ran))
            } else {
                pre
            }
        }
}

/// The scope on the entry's owner was stale in the store `start`.
pub open spec fn entry_stale<T, R>(entry: Entry<R>, start: StoreView<T>) -> bool {
    start.scope(entry.owner) matches Some(scope) && start.stale(scope)
}

/// After a run that left `read` in its scope, the owner's scope is replaced
/// as a whole: it holds `read` and nothing of what it held, and its
/// baseline is the tick at the end of the run. An owner that the run has
/// razed gets no scope.
pub open spec fn rescoped<T>(mid: StoreView<T>, after: StoreView<T>, owner: NodeId, read: Set<Dependency>) -> bool {
    if mid.alive(owner) {
        &&& after.scope(owner) matches Some(scope)
        &&& scope.deps() == read
        &&& scope.tick() == mid.tick
        &&& after == mid.with_scope(owner, after.scope(owner))
    } else {
        after == mid
    }
}

/// The driver's step for one entry, in a pass that began in the store
/// `start`: the reaction runs if and only if its scope was stale in `start`
/// and its owner is still alive when its turn comes.
pub open spec fn entry_step<T, R: Reaction<T>>(
    pre: Entry<R>,
    post: Entry<R>,
    start: StoreView<T>,
    before: StoreView<T>,
    after: StoreView<T>,
) -> bool {
    &&& post.owner == pre.owner
    &&& if entry_stale(pre, start) && before.alive(pre.owner) {
        &&& post.runs@ == pre.runs@ + 1
        &&& exists|mid: StoreView<T>, read: Set<Dependency>| #[trigger]
            R::ran(pre.cell.0, post.cell.0, pre.owner, before, mid, Set::empty(), read, post.last) && mid.wf()
                && rescoped(
                mid,
                after,
                pre.owner,
                read,
            )
    } else {
        &&& post == pre
        &&& after == before
    }
}

/// Step `i` of a pass through the stores `ws`.
pub open spec fn pass_step<T, R: Reaction<T>>(
    pre: Seq<Entry<R>>,
    post: Seq<Entry<R>>,
    ws: Seq<StoreView<T>>,
    i: int,
) -> bool {
    entry_step(pre[i], post[i], ws[0], ws[i], ws[i + 1])
}

/// One pass of the driver over the entries `pre`, through the stores `ws`.
pub open spec fn pass<T, R: Reaction<T>>(pre: Seq<Entry<R>>, post: Seq<Entry<R>>, ws: Seq<StoreView<T>>) -> bool {
    &&& pre.len() == post.len()
    &&& ws.len() == pre.len() + 1
    &&& forall|i: int| 0 <= i < pre.len() ==> #[trigger] pass_step(pre, post, ws, i)
}

impl<R> ReactionTable<R> {
    /// The entries, in the order in which the driver visits them.
    pub closed spec fn entries(&self) -> Seq<Entry<R>> {
        self.entries@
    }

    /// No two entries have the same owner.
    pub open spec fn wf(&self) -> bool {
        forall|i: int, j: int|
            0 <= i < j < self.entries().len() ==> (#[trigger] self.entries()[i]).owner != (
            #[trigger] self.entries()[j]).owner
    }

    /// The position of the entry of `owner`, where there is one.
    pub open spec fn position(&self, owner: NodeId) -> Option<int> {
        place_of(self.entries(), owner)
    }

    /// An empty table.
    pub fn new() -> (table: Self)
        ensures
            table.wf(),
            table.entries().len() == 0,
    {
        ReactionTable { entries: Vec::new() }
    }

    /// How many cells the table holds.
    pub fn len(&self) -> (n: usize)
        ensures
            n == self.entries().len(),
    {
        self.entries.len()
    }

    /// Where the cell of `owner` stands in the table.
    pub fn find(&self, owner: NodeId) -> (at: Option<usize>)
        ensures
            match at {
                Some(i) => i < self.entries().len() && self.entries()[i as int].owner == owner,
                None => forall|i: int| 0 <= i < self.entries().len() ==> (#[trigger] self.entries()[i]).owner != owner,
            },
    {
        let mut i: usize = 0;
        while i < self.entries.len()
            invariant
                i <= self.entries@.len(),
                forall|k: int| 0 <= k < i ==> (#[trigger] self.entries@[k]).owner != owner,
            decreases self.entries@.len() - i,
        {
            if self.entries[i].owner == owner {
                return Some(i);
            }
            i += 1;
        }
        None
    }

    /// Every reaction in the table is valid.
    pub open spec fn all_valid<T>(&self) -> bool where R: Reaction<T> {
        forall|i: int| 0 <= i < self.entries().len() ==> (#[trigger] self.entries()[i]).cell.0.valid()
    }

    /// Gives `owner` the cell `cell`, in place of the cell it had, if any.
    /// The cell has not run under the driver yet.
    pub fn insert(&mut self, owner: NodeId, cell: ReactionCell<R>)
        requires
            old(self).wf(),
        ensures
            final(self).wf(),
            final(self).entries() == with_cell(old(self).entries(), owner, cell),
    {
        let entry = Entry { owner, cell, last: Ok(()), runs: Ghost(0nat) };
        match self.find(owner) {
            Some(i) => {
                proof {
                    old(self).lemma_position_unique(owner, i as int);
                }
                self.entries.set(i, entry);
            },
            None => {
                self.entries.push(entry);
            },
        }
    }

    /// In a table without doubles the entry of an owner stands at one place.
    pub proof fn lemma_position_unique(&self, owner: NodeId, i: int)
        requires
            self.wf(),
            0 <= i < self.entries().len(),
            self.entries()[i].owner == owner,
        ensures
            self.position(owner) == Some(i),
    {
        let j = choose|j: int| 0 <= j < self.entries().len() && #[trigger] self.entries()[j].owner == owner;
        if j < i {
            assert(self.entries()[j].owner != self.entries()[i].owner);
        }
        if i < j {
            assert(self.entries()[i].owner != self.entries()[j].owner);
        }
    }

    /// Takes the cell of `owner` out of the table, where there is one. The
    /// entries after it move up by one place.
    pub fn remove(&mut self, owner: NodeId) -> (cell: Option<ReactionCell<R>>)
        requires
            old(self).wf(),
        ensures
            final(self).wf(),
            match old(self).position(owner) {
                Some(i) => cell == Some(old(self).entries()[i].cell) && final(self).entries() == old(
                    self,
                ).entries().remove(i),
                None => cell is None && final(self).entries() == old(self).entries(),
            },
    {
        match self.find(owner) {
            Some(i) => {
                proof {
                    old(self).lemma_position_unique(owner, i as int);
                }
                let entry = self.entries.remove(i);
                Some(entry.cell)
            },
            None => None,
        }
    }

    /// The node that owns the cell at position `i`.
    pub fn owner_at(&self, i: usize) -> (owner: Option<NodeId>)
        ensures
            owner == if i < self.entries().len() {
                Some(self.entries()[i as int].owner)
            } else {
                None
            },
    {
        if i < self.entries.len() {
            Some(self.entries[i].owner)
        } else {
            None
        }
    }

    /// The cell at position `i`.
    pub fn cell_at(&self, i: usize) -> (cell: Option<&ReactionCell<R>>)
        ensures
            match cell {
                Some(c) => i < self.entries().len() && *c == self.entries()[i as int].cell,
                None => i >= self.entries().len(),
            },
    {
        if i < self.entries.len() {
            Some(&self.entries[i].cell)
        } else {
            None
        }
    }

    /// The result of the last run of the cell at position `i` under the
    /// driver; `Ok` where it has not run yet or there is no such cell.
    pub fn last_result(&self, i: usize) -> (res: Result<(), ReactorError>)
        ensures
            res == if i < self.entries().len() {
                self.entries()[i as int].last
            } else {
                Ok(())
            },
    {
        if i < self.entries.len() {
            self.entries[i].last
        } else {
            Ok(())
        }
    }
}

impl<R> ReactionTable<R> {
    /// Registers `reaction` for `owner`: runs it once, there and then,
    /// attaches the scope of that run to `owner`, and puts the reaction into
    /// the table, so that the driver runs it again when what it read is
    /// written. Returns the result of the first run. Fails with
    /// `MissingDependency` when `owner` is not alive; the reaction does not
    /// run then, and nothing changes.
    pub fn add_reaction<T>(&mut self, world: &mut Store<T>, owner: NodeId, reaction: R) -> (res: Result<
        (),
        ReactorError,
    >) where R: Reaction<T>
        requires
            old(self).wf(),
            old(self).all_valid::<T>(),
            old(world).wf(),
            reaction.valid(),
        ensures
            final(self).wf(),
            final(self).all_valid::<T>(),
            final(world).wf(),
            if old(world)@.alive(owner) {
                registered(old(self).entries(), final(self).entries(), reaction, owner, old(world)@, final(world)@, res)
            } else {
                &&& res == Err::<(), ReactorError>(ReactorError::MissingDependency)
                &&& final(self).entries() == old(self).entries()
                &&& final(world)@ == old(world)@
            },
    {
        if !world.is_alive(owner) {
            return Err(ReactorError::MissingDependency);
        }
        let mut reaction = reaction;
        let ghost first = reaction;
        let mut scope = TrackingScope::new(world.change_tick());
        let res = reaction.react(owner, world, &mut scope);
        let ghost mid = world@;
        let ghost read = scope.deps();
        scope.set_baseline(world.change_tick());
        let attached = world.insert_scope(owner, scope);
        assert(rescoped(mid, world@, owner, read));
        if attached.is_ok() {
            let ghost ran = reaction;
            self.insert(owner, ReactionCell::new(reaction));
            proof {
                assert(R::ran(first, ran, owner, old(world)@, mid, Set::empty(), read, res));
                assert forall|i: int| 0 <= i < self.entries().len() implies (
                #[trigger] self.entries()[i]).cell.0.valid() by {
                    if i < old(self).entries().len() && self.entries()[i] == old(self).entries()[i] {
                    }
                }
                assert(registered(old(self).entries(), self.entries(), first, owner, old(world)@, world@, res));
            }
        } else {
            proof {
                assert(R::ran(first, reaction, owner, old(world)@, mid, Set::empty(), read, res));
                assert(registered(old(self).entries(), self.entries(), first, owner, old(world)@, world@, res));
            }
        }
        res
    }

    /// Which entries are stale in `world`, position by position.
    fn stale_flags<T>(&self, world: &Store<T>) -> (flags: Vec<bool>)
        ensures
            flags@.len() == self.entries().len(),
            forall|i: int|
                0 <= i < flags@.len() ==> #[trigger] flags@[i] == entry_stale(self.entries()[i], world@),
    {
        let mut flags: Vec<bool> = Vec::new();
        let mut i: usize = 0;
        while i < self.entries.len()
            invariant
                i <= self.entries@.len(),
                flags@.len() == i,
                forall|k: int| 0 <= k < i ==> #[trigger] flags@[k] == entry_stale(self.entries@[k], world@),
            decreases self.entries@.len() - i,
        {
            flags.push(world.is_stale(self.entries[i].owner));
            i += 1;
        }
        flags
    }

    /// The driver: one pass over the table, to be made once per tick.
    ///
    /// Staleness is judged once, in the store as the pass finds it. Each
    /// reaction whose scope is stale there runs once, in table order, unless
    /// its owner has been razed before its turn; a reaction whose scope is
    /// not stale does not run, and neither its entry nor the store is
    /// touched on its account. A reaction runs against an empty scope, which
    /// then replaces the owner's scope as a whole, with the tick at the end
    /// of the run as its baseline: what the reaction wrote itself does not
    /// make it stale.
    pub fn run_reactions<T>(&mut self, world: &mut Store<T>) where R: Reaction<T>
        requires
            old(self).wf(),
            old(world).wf(),
            forall|i: int| 0 <= i < old(self).entries().len() ==> (#[trigger] old(self).entries()[i]).cell.0.valid(),
        ensures
            final(self).wf(),
            final(world).wf(),
            forall|i: int|
                0 <= i < final(self).entries().len() ==> (#[trigger] final(self).entries()[i]).cell.0.valid(),
            exists|ws: Seq<StoreView<T>>| #[trigger]
                pass(old(self).entries(), final(self).entries(), ws) && ws[0] == old(world)@ && ws[ws.len() - 1]
                    == final(world)@,
    {
        let flags = self.stale_flags(world);
        let ghost pre = self.entries@;
        let ghost mut ws: Seq<StoreView<T>> = seq![world@];
        let n = self.entries.len();
        let mut i: usize = 0;
        while i < n
            invariant
                i <= n,
                n == pre.len(),
                pre == old(self).entries@,
                self.entries@.len() == n,
                flags@.len() == n,
                forall|k: int| 0 <= k < n ==> #[trigger] flags@[k] == entry_stale(pre[k], old(world)@),
                world.wf(),
                ws.len() == i + 1,
                ws[0] == old(world)@,
                ws[i as int] == world@,
                forall|k: int| 0 <= k < n ==> (#[trigger] self.entries@[k]).cell.0.valid(),
                forall|k: int| 0 <= k < n ==> (#[trigger] self.entries@[k]).owner == pre[k].owner,
                forall|k: int| 0 <= k < i ==> #[trigger] pass_step(pre, self.entries@, ws, k),
                forall|k: int| i <= k < n ==> #[trigger] self.entries@[k] == pre[k],
            decreases n - i,
        {
            let ghost before = world@;
            let ghost done = self.entries@;
            let owner = self.entries[i].owner;
            if flags[i] && world.is_alive(owner) {
                let mut next = TrackingScope::new(world.change_tick());
                let ghost reaction = self.entries@[i as int].cell.0;
                let res = self.entries[i].cell.0.react(owner, world, &mut next);
                let ghost mid = world@;
                let ghost read = next.deps();
                next.set_baseline(world.change_tick());
                self.entries[i].last = res;
                self.entries[i].runs = Ghost((pre[i as int].runs@ + 1) as nat);
                let _ = world.insert_scope(owner, next);
                proof {
                    assert(rescoped(mid, world@, owner, read));
                    assert(R::ran(
                        reaction,
                        self.entries@[i as int].cell.0,
                        owner,
                        before,
                        mid,
                        Set::empty(),
                        read,
                        res,
                    ) && mid.wf() && rescoped(mid, world@, owner, read));
                    assert(entry_step(pre[i as int], self.entries@[i as int], old(world)@, before, world@));
                }
            }
            proof {
                let chain = ws.push(world@);
                assert forall|k: int| 0 <= k < i + 1 implies #[trigger] pass_step(pre, self.entries@, chain, k) by {
                    if k < i {
                        assert(pass_step(pre, done, ws, k));
                        assert(self.entries@[k] == done[k]);
                    }
                }
                assert forall|k: int| i + 1 <= k < n implies #[trigger] self.entries@[k] == pre[k] by {
                    assert(done[k] == pre[k]);
                }
                assert forall|k: int| 0 <= k < n implies (#[trigger] self.entries@[k]).owner == pre[k].owner by {
                    assert(done[k].owner == pre[k].owner);
                }
                ws = chain;
            }
            i += 1;
        }
        proof {
            assert(pass(old(self).entries(), self.entries(), ws));
            assert forall|a: int, b: int| 0 <= a < b < self.entries().len() implies (#[trigger] self.entries()[a]).owner
                != (#[trigger] self.entries()[b]).owner by {
                assert(old(self).entries()[a].owner != old(self).entries()[b].owner);
            }
        }
    }

    /// Drops the cells whose owner is no longer alive: razing a node ends
    /// its reactions. The cells that stay keep their order.
    pub fn prune<T>(&mut self, world: &Store<T>)
        requires
            old(self).wf(),
        ensures
            final(self).wf(),
            final(self).entries() == old(self).entries().filter(|e: Entry<R>| world@.alive(e.owner)),
    {
        let ghost keep = |e: Entry<R>| world@.alive(e.owner);
        let ghost all = self.entries@;
        let mut kept: Vec<Entry<R>> = Vec::new();
        let ghost mut i: int = 0;
        proof {
            reveal(Seq::filter);
            assert(all.subrange(0, 0) =~= Seq::<Entry<R>>::empty());
            assert(self.entries@ =~= all.subrange(0, all.len() as int));
        }
        while self.entries.len() > 0
            invariant
                0 <= i,
                i + self.entries@.len() == all.len(),
                self.entries@ == all.subrange(i, all.len() as int),
                kept@ == all.subrange(0, i).filter(keep),
                keep == |e: Entry<R>| world@.alive(e.owner),
            decreases self.entries@.len(),
        {
            let entry = self.entries.remove(0);
            proof {
                assert(entry == all[i]);
                assert(all.subrange(0, i + 1) =~= all.subrange(0, i).push(all[i]));
                lemma_filter_push(all.subrange(0, i), all[i], keep);
                assert(self.entries@ =~= all.subrange(i + 1, all.len() as int));
            }
            if world.is_alive(entry.owner) {
                kept.push(entry);
            }
            proof {
                i = i + 1;
            }
        }
        proof {
            assert(all.subrange(0, all.len() as int) =~= all);
            lemma_filter_keeps_distinct(all, keep);
        }
        self.entries = kept;
    }
}

/// Filtering a sequence with one more item at its end filters the item.
pub proof fn lemma_filter_push<A>(s: Seq<A>, a: A, keep: spec_fn(A) -> bool)
    ensures
        s.push(a).filter(keep) == if keep(a) {
            s.filter(keep).push(a)
        } else {
            s.filter(keep)
        },
{
    reveal(Seq::filter);
    assert(s.push(a).drop_last() =~= s);
}

/// What is left of a table without doubles when entries are dropped is a
/// table without doubles.
pub proof fn lemma_filter_keeps_distinct<R>(s: Seq<Entry<R>>, keep: spec_fn(Entry<R>) -> bool)
    requires
        forall|i: int, j: int| 0 <= i < j < s.len() ==> (#[trigger] s[i]).owner != (#[trigger] s[j]).owner,
    ensures
        forall|i: int, j: int|
            0 <= i < j < s.filter(keep).len() ==> (#[trigger] s.filter(keep)[i]).owner != (
            #[trigger] s.filter(keep)[j]).owner,
        forall|i: int| 0 <= i < s.filter(keep).len() ==> s.contains(#[trigger] s.filter(keep)[i]),
    decreases s.len(),
{
    reveal(Seq::filter);
    if s.len() > 0 {
        let head = s.drop_last();
        lemma_filter_keeps_distinct(head, keep);
        lemma_filter_push(head, s.last(), keep);
        assert(head.push(s.last()) =~= s);
        let f = s.filter(keep);
        assert forall|i: int| 0 <= i < f.len() implies s.contains(#[trigger] f[i]) by {
            if i < head.filter(keep).len() {
                let k = choose|k: int| 0 <= k < head.len() && head[k] == head.filter(keep)[i];
                assert(s[k] == f[i]);
            } else {
                assert(s[s.len() - 1] == f[i]);
            }
        }
        assert forall|i: int, j: int| 0 <= i < j < f.len() implies (#[trigger] f[i]).owner != (#[trigger] f[j]).owner by {
            if j == head.filter(keep).len() {
                let k = choose|k: int| 0 <= k < head.len() && head[k] == head.filter(keep)[i];
                assert(s[k].owner != s[s.len() - 1].owner);
            }
        }
    }
}

/// A reaction re-runs on the first pass after a write to something it
/// tracks: if, when a pass begins, some dependency in the reaction's scope
/// was last written at a tick greater than the scope's baseline, the
/// reaction runs once in that pass, provided that its owner is still alive
/// when its turn comes.
pub proof fn lemma_written_dependency_reruns<T, R: Reaction<T>>(
    pre: Seq<Entry<R>>,
    post: Seq<Entry<R>>,
    ws: Seq<StoreView<T>>,
    i: int,
    dep: Dependency,
)
    requires
        pass(pre, post, ws),
        0 <= i < pre.len(),
        ws[0].scope(pre[i].owner) matches Some(scope) && scope.deps().contains(dep) && (ws[0].last_write(
            dep,
        ) matches Some(t) && t > scope.tick()),
        ws[i].alive(pre[i].owner),
    ensures
        post[i].runs@ == pre[i].runs@ + 1,
        exists|mid: StoreView<T>, read: Set<Dependency>| #[trigger]
            R::ran(pre[i].cell.0, post[i].cell.0, pre[i].owner, ws[i], mid, Set::empty(), read, post[i].last),
{
    assert(pass_step(pre, post, ws, i));
    let scope = ws[0].scope(pre[i].owner)->Some_0;
    assert(scope.deps().contains(dep) && ws[0].changed_since(dep, scope.tick()));
}

/// A reaction does not re-run in a pass at whose beginning every dependency
/// in its scope was last written at or before the scope's baseline: its
/// entry is left as it was, and its turn leaves the store as it was.
pub proof fn lemma_unwritten_dependencies_rest<T, R: Reaction<T>>(
    pre: Seq<Entry<R>>,
    post: Seq<Entry<R>>,
    ws: Seq<StoreView<T>>,
    i: int,
)
    requires
        pass(pre, post, ws),
        0 <= i < pre.len(),
        ws[0].scope(pre[i].owner) matches Some(scope) ==> forall|dep: Dependency| #[trigger]
            scope.deps().contains(dep) ==> (ws[0].last_write(dep) matches Some(t) ==> t <= scope.tick()),
    ensures
        post[i] == pre[i],
        post[i].runs@ == pre[i].runs@,
        ws[i + 1] == ws[i],
{
    assert(pass_step(pre, post, ws, i));
}

/// A write makes stale every scope that tracks the written slot and whose
/// baseline is not ahead of the counter, whether or not the value written
/// differs from the one that was there.
pub proof fn lemma_write_makes_stale<T>(
    world: StoreView<T>,
    scope: TrackingScope,
    id: NodeId,
    kind: crate::tracking_scope::TypeTag,
    value: T,
)
    requires
        world.wf(),
        world.alive(id),
        world.tick < u64::MAX,
        scope.deps().contains(Dependency { id, kind }),
        scope.tick() <= world.tick,
    ensures
        world.written(id, kind, value).stale(scope),
{
    let dep = Dependency { id, kind };
    crate::store::lemma_written(world, id, kind, value);
    assert(world.written(id, kind, value).changed_since(dep, scope.tick()));
}

/// A scope is not stale in the store in which the driver has just attached
/// it: what the reaction wrote during its own run lies at or before the
/// new baseline and does not bring the reaction back.
pub proof fn lemma_own_writes_do_not_retrigger<T>(
    mid: StoreView<T>,
    after: StoreView<T>,
    owner: NodeId,
    read: Set<Dependency>,
)
    requires
        mid.wf(),
        mid.alive(owner),
        rescoped(mid, after, owner, read),
    ensures
        after.scope(owner) matches Some(scope) && !after.stale(scope),
{
    let scope = after.scope(owner)->Some_0;
    assert forall|dep: Dependency| #[trigger] scope.deps().contains(dep) implies !after.changed_since(
        dep,
        scope.tick(),
    ) by {
        if after.has_slot(dep.id, dep.kind) {
            let slots = mid.nodes[dep.id as int].slots;
            assert(after.nodes[dep.id as int].slots == slots);
            crate::store::lemma_first_slot(slots, dep.kind, 0);
            let at = crate::store::first_slot(slots, dep.kind, 0)->Some_0;
            assert(mid.nodes[dep.id as int].slots[at].changed <= mid.tick);
        }
    }
}

} // verus!
