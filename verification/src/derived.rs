//! Derived signals: values computed from other signals. Nothing is cached:
//! every read runs the compute function again, and what that function reads
//! is recorded in the scope of whoever asked.

use vstd::prelude::*;
use crate::context::Rcx;
use crate::error::ReactorError;
use crate::mutable::Mutable;
use crate::tracking_scope::{Dependency, NodeId, TrackingScope};
use crate::store::{Store, StoreView};

verus! {

/// A compute function of a derived signal.
///
/// `computes` says which results a run may return and what it reads on the
/// way. Each function states it of its own code; of a function that states
/// nothing the engine assumes nothing.
pub trait DerivedFn<T, R> {
    /// A run on behalf of `owner` in the store `world` may read `read` and
    /// return `r`. A function that states nothing may return anything.
    open spec fn computes(&self, world: StoreView<T>, owner: NodeId, r: R, read: Set<Dependency>) -> bool {
        true
    }

    /// Runs the function in a context whose scope is empty; what the scope
    /// holds afterwards is what the run has read.
    fn call(&self, cx: &mut Rcx<T>) -> (r: R)
        requires
            old(cx).world.wf(),
            old(cx).tracking.deps() == Set::<Dependency>::empty(),
        ensures
            self.computes(old(cx).world@, old(cx).owner, r, final(cx).tracking.deps()),
    ;
}

/// A run of `f` on behalf of `owner` in the store `world` returned `r`, and
/// what it read took the caller's dependencies from `before` to `after`.
pub open spec fn tracked_run<T, R, F: DerivedFn<T, R>>(
    f: F,
    world: StoreView<T>,
    owner: NodeId,
    r: R,
    before: Set<Dependency>,
    after: Set<Dependency>,
) -> bool {
    exists|read: Set<Dependency>| #[trigger] f.computes(world, owner, r, read) && after == before.union(read)
}

/// A cell read as a signal: the compute function is the tracked read.
impl<T: Copy> DerivedFn<T, Result<T, ReactorError>> for Mutable {
    open spec fn computes(
        &self,
        world: StoreView<T>,
        owner: NodeId,
        r: Result<T, ReactorError>,
        read: Set<Dependency>,
    ) -> bool {
        &&& read == set![self.dep()]
        &&& r == if world.has_slot(self.cell, self.kind) {
            Ok::<T, ReactorError>(world.value(self.cell, self.kind))
        } else {
            Err::<T, ReactorError>(ReactorError::MissingDependency)
        }
    }

    fn call(&self, cx: &mut Rcx<T>) -> (r: Result<T, ReactorError>) {
        let r = self.get(cx);
        assert(cx.tracking.deps() =~= set![self.dep()]);
        r
    }
}

/// A cell of flags read as a test: it holds where the cell holds `true`. A
/// cell that is no longer in the store counts as `false`.
#[derive(Clone, Copy, Debug, PartialEq, Eq, Structural)]
pub struct FlagTest {
    pub cell: Mutable,
}

impl DerivedFn<bool, bool> for FlagTest {
    open spec fn computes(&self, world: StoreView<bool>, owner: NodeId, r: bool, read: Set<Dependency>) -> bool {
        &&& read == set![self.cell.dep()]
        &&& r == (world.has_slot(self.cell.cell, self.cell.kind) && world.value(
            self.cell.cell,
            self.cell.kind,
        ))
    }

    fn call(&self, cx: &mut Rcx<bool>) -> (r: bool) {
        let r = self.cell.get(cx);
        assert(cx.tracking.deps() =~= set![self.cell.dep()]);
        match r {
            Ok(flag) => flag,
            Err(_) => false,
        }
    }
}

/// A derived signal: the node that stands for it in the store, and its
/// compute function.
pub struct Derived<F> {
    pub id: NodeId,
    pub compute: F,
}

/// Creates a derived signal on a new root node of the store.
pub fn create_derived<T, F>(world: &mut Store<T>, compute: F) -> (derived: Derived<F>)
    requires
        old(world).wf(),
    ensures
        final(world).wf(),
        old(world)@.precedes(final(world)@),
        derived.id == old(world)@.nodes.len(),
        derived.compute == compute,
        final(world)@ == old(world)@.spawned(None),
{
    let id = world.spawn_empty();
    Derived { id, compute }
}

impl<T> Store<T> {
    /// Reads a derived signal: runs its compute function on behalf of the
    /// signal's node, with `scope` as the tracking scope, so that what the
    /// function reads becomes a dependency of the caller. Fails with
    /// `MissingDependency`, and leaves `scope` as it was, when the signal's
    /// node is not alive.
    pub fn read_derived_with_scope<R, F: DerivedFn<T, R>>(
        &self,
        derived: &Derived<F>,
        scope: &mut TrackingScope,
    ) -> (res: Result<R, ReactorError>)
        requires
            self.wf(),
        ensures
            final(scope).tick() == old(scope).tick(),
            match res {
                Ok(r) => {
                    &&& self@.alive(derived.id)
                    &&& tracked_run(derived.compute, self@, derived.id, r, old(scope).deps(), final(scope).deps())
                },
                Err(e) => {
                    &&& !self@.alive(derived.id)
                    &&& e == ReactorError::MissingDependency
                    &&& final(scope).deps() == old(scope).deps()
                },
            },
    {
        if !self.is_alive(derived.id) {
            return Err(ReactorError::MissingDependency);
        }
        let mut cx = Rcx::new(self, derived.id, TrackingScope::new(scope.baseline()));
        let r = derived.compute.call(&mut cx);
        let read = cx.into_tracking();
        scope.merge(&read);
        assert(derived.compute.computes(self@, derived.id, r, read.deps()));
        assert(tracked_run(derived.compute, self@, derived.id, r, old(scope).deps(), scope.deps()));
        Ok(r)
    }

    /// Reads a derived signal as `read_derived_with_scope` does, and hands
    /// the result to `f`.
    pub fn read_derived_map_with_scope<R, U, F: DerivedFn<T, R>, M: Fn(&R) -> U>(
        &self,
        derived: &Derived<F>,
        scope: &mut TrackingScope,
        f: M,
    ) -> (res: Result<U, ReactorError>)
        requires
            self.wf(),
            forall|r: R| call_requires(f, (&r,)),
        ensures
            final(scope).tick() == old(scope).tick(),
            match res {
                Ok(u) => {
                    &&& self@.alive(derived.id)
                    &&& exists|r: R| #[trigger]
                        tracked_run(derived.compute, self@, derived.id, r, old(scope).deps(), final(scope).deps())
                            && call_ensures(f, (&r,), u)
                },
                Err(e) => {
                    &&& !self@.alive(derived.id)
                    &&& e == ReactorError::MissingDependency
                    &&& final(scope).deps() == old(scope).deps()
                },
            },
    {
        match self.read_derived_with_scope(derived, scope) {
            Ok(r) => {
                let u = f(&r);
                assert(tracked_run(derived.compute, self@, derived.id, r, old(scope).deps(), scope.deps())
                    && call_ensures(f, (&r,), u));
                Ok(u)
            },
            Err(e) => Err(e),
        }
    }

    /// Reads a derived signal as `read_derived_with_scope` does, and returns
    /// a clone of the result.
    pub fn read_derived_clone_with_scope<R: Clone, F: DerivedFn<T, R>>(
        &self,
        derived: &Derived<F>,
        scope: &mut TrackingScope,
    ) -> (res: Result<R, ReactorError>)
        requires
            self.wf(),
        ensures
            final(scope).tick() == old(scope).tick(),
            match res {
                Ok(c) => {
                    &&& self@.alive(derived.id)
                    &&& exists|r: R| #[trigger]
                        tracked_run(derived.compute, self@, derived.id, r, old(scope).deps(), final(scope).deps())
                            && cloned(r, c)
                },
                Err(e) => {
                    &&& !self@.alive(derived.id)
                    &&& e == ReactorError::MissingDependency
                    &&& final(scope).deps() == old(scope).deps()
                },
            },
    {
        match self.read_derived_with_scope(derived, scope) {
            Ok(r) => {
                let c = r.clone();
                assert(tracked_run(derived.compute, self@, derived.id, r, old(scope).deps(), scope.deps())
                    && cloned(r, c));
                Ok(c)
            },
            Err(e) => Err(e),
        }
    }
}

/// Reading derived signals outside of any reaction: the compute function
/// runs against a scope that is made for the read and dropped after it.
pub trait ReadDerived<T> {
    /// The store that is read.
    spec fn store(&self) -> StoreView<T>;

    /// Reads a derived signal. Fails with `MissingDependency` when the
    /// signal's node is not alive.
    fn read_derived<R, F: DerivedFn<T, R>>(&self, derived: &Derived<F>) -> (res: Result<R, ReactorError>)
        requires
            self.store().wf(),
        ensures
            match res {
                Ok(r) => self.store().alive(derived.id) && exists|read: Set<Dependency>| #[trigger]
                    derived.compute.computes(self.store(), derived.id, r, read),
                Err(e) => !self.store().alive(derived.id) && e == ReactorError::MissingDependency,
            },
    ;

    /// Reads a derived signal and returns a clone of the result. Fails with
    /// `MissingDependency` when the signal's node is not alive.
    fn read_derived_clone<R: Clone, F: DerivedFn<T, R>>(&self, derived: &Derived<F>) -> (res: Result<
        R,
        ReactorError,
    >)
        requires
            self.store().wf(),
        ensures
            match res {
                Ok(c) => self.store().alive(derived.id) && exists|r: R, read: Set<Dependency>| #[trigger]
                    derived.compute.computes(self.store(), derived.id, r, read) && cloned(r, c),
                Err(e) => !self.store().alive(derived.id) && e == ReactorError::MissingDependency,
            },
    ;

    /// Reads a derived signal and hands the result to `f`. Fails with
    /// `MissingDependency` when the signal's node is not alive.
    fn read_derived_map<R, U, F: DerivedFn<T, R>, M: Fn(&R) -> U>(&self, derived: &Derived<F>, f: M) -> (res:
        Result<U, ReactorError>)
        requires
            self.store().wf(),
            forall|r: R| call_requires(f, (&r,)),
        ensures
            match res {
                Ok(u) => self.store().alive(derived.id) && exists|r: R, read: Set<Dependency>| #[trigger]
                    derived.compute.computes(self.store(), derived.id, r, read) && call_ensures(f, (&r,), u),
                Err(e) => !self.store().alive(derived.id) && e == ReactorError::MissingDependency,
            },
    ;
}

impl<T> ReadDerived<T> for Store<T> {
    open spec fn store(&self) -> StoreView<T> {
        self@
    }

    fn read_derived<R, F: DerivedFn<T, R>>(&self, derived: &Derived<F>) -> (res: Result<R, ReactorError>) {
        let mut scope = TrackingScope::new(self.change_tick());
        self.read_derived_with_scope(derived, &mut scope)
    }

    fn read_derived_clone<R: Clone, F: DerivedFn<T, R>>(&self, derived: &Derived<F>) -> (res: Result<
        R,
        ReactorError,
    >) {
        let mut scope = TrackingScope::new(self.change_tick());
        self.read_derived_clone_with_scope(derived, &mut scope)
    }

    fn read_derived_map<R, U, F: DerivedFn<T, R>, M: Fn(&R) -> U>(&self, derived: &Derived<F>, f: M) -> (res:
        Result<U, ReactorError>) {
        let mut scope = TrackingScope::new(self.change_tick());
        self.read_derived_map_with_scope(derived, &mut scope, f)
    }
}

/// The two stores agree on when each of `deps` was last written.
pub open spec fn same_writes<T>(a: StoreView<T>, b: StoreView<T>, deps: Set<Dependency>) -> bool {
    forall|dep: Dependency| #[trigger] deps.contains(dep) ==> a.last_write(dep) == b.last_write(dep)
}

/// The result of the compute function is determined by what it reads: two
/// runs between which none of the dependencies of the first was written
/// cannot differ.
pub open spec fn determined_by_reads<T, R, F: DerivedFn<T, R>>(f: F, owner: NodeId) -> bool {
    forall|a: StoreView<T>, b: StoreView<T>, x: R, y: R, p: Set<Dependency>, q: Set<Dependency>|
        #![trigger f.computes(a, owner, x, p), f.computes(b, owner, y, q)]
        f.computes(a, owner, x, p) && f.computes(b, owner, y, q) && same_writes(a, b, p) ==> x == y
}

/// Two reads of a derived signal whose result is determined by what it
/// reads, with no write to any of the dependencies of the first read
/// between them, return equal results. Each of the two results is a result
/// of a run of the compute function in the store as it was at that read: no
/// read is served from an earlier one.
pub proof fn lemma_reads_without_writes_agree<T, R, F: DerivedFn<T, R>>(
    derived: Derived<F>,
    first: StoreView<T>,
    second: StoreView<T>,
    x: R,
    y: R,
    p: Set<Dependency>,
    q: Set<Dependency>,
)
    requires
        determined_by_reads::<T, R, F>(derived.compute, derived.id),
        derived.compute.computes(first, derived.id, x, p),
        derived.compute.computes(second, derived.id, y, q),
        same_writes(first, second, p),
    ensures
        x == y,
{
}

} // verus!
