//! Mutable cells: a value in a slot of a node of its own, read through a
//! context and written through the store.

use vstd::prelude::*;
use crate::context::Rcx;
use crate::error::ReactorError;
use crate::tracking_scope::{Dependency, NodeId, TypeTag};
use crate::store::{Store, StoreView};

verus! {

/// A handle to a mutable cell. The cell is a node below the node that
/// created it, and leaves the store with that owner.
#[derive(Clone, Copy, Debug, PartialEq, Eq, Structural)]
pub struct Mutable {
    pub cell: NodeId,
    pub kind: TypeTag,
}

/// The store after `owner` has been given a new cell that holds `init`.
pub open spec fn with_new_cell<T>(w: StoreView<T>, owner: NodeId, kind: TypeTag, init: T) -> StoreView<T> {
    w.spawned(Some(owner)).written(w.nodes.len() as NodeId, kind, init)
}

/// Creates a cell below `owner` that holds `init` in a slot of kind `kind`.
/// Fails with `MissingDependency` when `owner` is not alive and with
/// `TickOverflow` when the counter cannot advance; the store is then
/// unchanged.
pub fn create_mutable<T>(world: &mut Store<T>, owner: NodeId, kind: TypeTag, init: T) -> (res: Result<
    Mutable,
    ReactorError,
>)
    requires
        old(world).wf(),
    ensures
        final(world).wf(),
        old(world)@.precedes(final(world)@),
        match res {
            Ok(m) => {
                &&& old(world)@.alive(owner)
                &&& old(world)@.tick < u64::MAX
                &&& m == Mutable { cell: old(world)@.nodes.len() as NodeId, kind }
                &&& final(world)@ == with_new_cell(old(world)@, owner, kind, init)
            },
            Err(e) => {
                &&& final(world)@ == old(world)@
                &&& e == if !old(world)@.alive(owner) {
                    ReactorError::MissingDependency
                } else {
                    ReactorError::TickOverflow
                }
                &&& !old(world)@.alive(owner) || old(world)@.tick == u64::MAX
            },
        },
{
    if !world.is_alive(owner) {
        return Err(ReactorError::MissingDependency);
    }
    if world.change_tick() == u64::MAX {
        return Err(ReactorError::TickOverflow);
    }
    match world.spawn_child(owner) {
        Ok(cell) => {
            match world.insert(cell, kind, init) {
                Ok(_) => Ok(Mutable { cell, kind }),
                Err(e) => Err(e),
            }
        },
        Err(e) => Err(e),
    }
}

impl Mutable {
    /// The dependency that a read of this cell records.
    pub open spec fn dep(self) -> Dependency {
        Dependency { id: self.cell, kind: self.kind }
    }

    /// The dependency that a read of this cell records.
    pub fn dependency(&self) -> (dep: Dependency)
        ensures
            dep == self.dep(),
    {
        Dependency { id: self.cell, kind: self.kind }
    }

    /// Reads the cell outside of any tracking context: nothing is recorded.
    /// Fails with `MissingDependency` when the cell is no longer in the
    /// store.
    pub fn read<'a, T>(&self, world: &'a Store<T>) -> (res: Result<&'a T, ReactorError>)
        ensures
            match res {
                Ok(v) => world@.has_slot(self.cell, self.kind) && *v == world@.value(self.cell, self.kind),
                Err(e) => !world@.has_slot(self.cell, self.kind) && e == ReactorError::MissingDependency,
            },
    {
        world.get(self.cell, self.kind)
    }

    /// Reads the cell and records it in the scope of `cx`. Fails with
    /// `MissingDependency` when the cell is no longer in the store; the
    /// dependency is recorded all the same.
    pub fn get<T: Copy>(&self, cx: &mut Rcx<T>) -> (res: Result<T, ReactorError>)
        ensures
            final(cx).world == old(cx).world,
            final(cx).owner == old(cx).owner,
            final(cx).tracking.deps() == old(cx).tracking.deps().insert(self.dep()),
            final(cx).tracking.tick() == old(cx).tracking.tick(),
            match res {
                Ok(v) => old(cx).world@.has_slot(self.cell, self.kind) && v == old(cx).world@.value(
                    self.cell,
                    self.kind,
                ),
                Err(e) => !old(cx).world@.has_slot(self.cell, self.kind) && e
                    == ReactorError::MissingDependency,
            },
    {
        cx.track(self.dependency());
        match cx.world.get(self.cell, self.kind) {
            Ok(v) => Ok(*v),
            Err(e) => Err(e),
        }
    }

    /// Reads the cell by cloning its value, and records it in the scope of
    /// `cx`. Fails with `MissingDependency` when the cell is no longer in
    /// the store; the dependency is recorded all the same.
    pub fn get_clone<T: Clone>(&self, cx: &mut Rcx<T>) -> (res: Result<T, ReactorError>)
        ensures
            final(cx).world == old(cx).world,
            final(cx).owner == old(cx).owner,
            final(cx).tracking.deps() == old(cx).tracking.deps().insert(self.dep()),
            final(cx).tracking.tick() == old(cx).tracking.tick(),
            match res {
                Ok(v) => old(cx).world@.has_slot(self.cell, self.kind) && cloned(
                    old(cx).world@.value(self.cell, self.kind),
                    v,
                ),
                Err(e) => !old(cx).world@.has_slot(self.cell, self.kind) && e
                    == ReactorError::MissingDependency,
            },
    {
        cx.track(self.dependency());
        match cx.world.get(self.cell, self.kind) {
            Ok(v) => Ok(v.clone()),
            Err(e) => Err(e),
        }
    }

    /// Reads the cell through `f`, and records it in the scope of `cx`.
    /// Fails with `MissingDependency` when the cell is no longer in the
    /// store; the dependency is recorded all the same, and `f` is not
    /// called.
    pub fn get_map<T, U, F: Fn(&T) -> U>(&self, cx: &mut Rcx<T>, f: F) -> (res: Result<U, ReactorError>)
        requires
            forall|v: T| call_requires(f, (&v,)),
        ensures
            final(cx).world == old(cx).world,
            final(cx).owner == old(cx).owner,
            final(cx).tracking.deps() == old(cx).tracking.deps().insert(self.dep()),
            final(cx).tracking.tick() == old(cx).tracking.tick(),
            match res {
                Ok(u) => old(cx).world@.has_slot(self.cell, self.kind) && call_ensures(
                    f,
                    (&old(cx).world@.value(self.cell, self.kind),),
                    u,
                ),
                Err(e) => !old(cx).world@.has_slot(self.cell, self.kind) && e
                    == ReactorError::MissingDependency,
            },
    {
        cx.track(self.dependency());
        match cx.world.get(self.cell, self.kind) {
            Ok(v) => Ok(f(v)),
            Err(e) => Err(e),
        }
    }

    /// Writes a clone of `value` to the cell, as `set` writes a value.
    pub fn set_clone<T: Clone>(&self, world: &mut Store<T>, value: &T) -> (res: Result<(), ReactorError>)
        requires
            old(world).wf(),
        ensures
            final(world).wf(),
            old(world)@.precedes(final(world)@),
            match res {
                Ok(_) => {
                    &&& old(world)@.has_slot(self.cell, self.kind)
                    &&& old(world)@.tick < u64::MAX
                    &&& exists|copy: T| #[trigger]
                        cloned(*value, copy) && final(world)@ == old(world)@.written(self.cell, self.kind, copy)
                },
                Err(e) => {
                    &&& final(world)@ == old(world)@
                    &&& e == if !old(world)@.has_slot(self.cell, self.kind) {
                        ReactorError::MissingDependency
                    } else {
                        ReactorError::TickOverflow
                    }
                    &&& !old(world)@.has_slot(self.cell, self.kind) || old(world)@.tick == u64::MAX
                },
            },
    {
        let copy = value.clone();
        let res = world.set(self.cell, self.kind, copy);
        if res.is_ok() {
            assert(cloned(*value, copy) && world@ == old(world)@.written(self.cell, self.kind, copy));
        }
        res
    }

    /// Writes `value` to the cell and stamps it with the next tick, whether
    /// or not the value has changed. Fails with `MissingDependency` when the
    /// cell is no longer in the store and with `TickOverflow` when the
    /// counter cannot advance; the store is then unchanged.
    pub fn set<T>(&self, world: &mut Store<T>, value: T) -> (res: Result<(), ReactorError>)
        requires
            old(world).wf(),
        ensures
            final(world).wf(),
            old(world)@.precedes(final(world)@),
            match res {
                Ok(_) => {
                    &&& old(world)@.has_slot(self.cell, self.kind)
                    &&& old(world)@.tick < u64::MAX
                    &&& final(world)@ == old(world)@.written(self.cell, self.kind, value)
                },
                Err(e) => {
                    &&& final(world)@ == old(world)@
                    &&& e == if !old(world)@.has_slot(self.cell, self.kind) {
                        ReactorError::MissingDependency
                    } else {
                        ReactorError::TickOverflow
                    }
                    &&& !old(world)@.has_slot(self.cell, self.kind) || old(world)@.tick == u64::MAX
                },
            },
    {
        world.set(self.cell, self.kind, value)
    }
}

} // verus!
