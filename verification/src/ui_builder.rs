//! A builder that creates cells, signals, callbacks and effects below one
//! parent node, so that they leave the store together with that node.

use vstd::prelude::*;
use crate::callback::{owned_upto, Callback, CallbackRegistry, Registered};
use crate::derived::Derived;
use crate::error::ReactorError;
use crate::mutable::{create_mutable, with_new_cell, Mutable};
use crate::reaction::{registered, EffectFn, EffectReaction, ReactionTable};
use crate::tracking_scope::{NodeId, TypeTag};
use crate::store::{Store, StoreView};

verus! {

/// The nearest node, from `start` upwards, that carries a slot of kind
/// `kind`.
pub open spec fn inherited<T>(world: StoreView<T>, start: NodeId, kind: TypeTag) -> Option<NodeId>
    decreases start,
{
    if world.has_slot(start, kind) {
        Some(start)
    } else if world.parent(start) is Some && world.parent(start)->Some_0 < start {
        inherited(world, world.parent(start)->Some_0, kind)
    } else {
        None
    }
}

/// Holds the store while children and other resources are created below
/// `parent`; `into_world` gives the store back.
pub struct UiBuilder<T> {
    world: Store<T>,
    parent: NodeId,
}

impl<T> UiBuilder<T> {
    /// The store as the builder holds it.
    pub closed spec fn store(&self) -> StoreView<T> {
        self.world@
    }

    /// The node below which the builder creates.
    pub closed spec fn owner(&self) -> NodeId {
        self.parent
    }

    /// The invariant of the builder.
    pub open spec fn wf(&self) -> bool {
        self.store().wf()
    }

    /// Construct a new builder over `world`, for what `owner` is to own.
    pub fn new(world: Store<T>, owner: NodeId) -> (builder: Self)
        ensures
            builder.store() == world@,
            builder.owner() == owner,
    {
        Self { world, parent: owner }
    }

    /// Access to the store.
    pub fn world(&self) -> (world: &Store<T>)
        ensures
            world@ == self.store(),
    {
        &self.world
    }

    /// Access to the store for writing.
    pub fn world_mut(&mut self) -> (world: &mut Store<T>)
        ensures
            world@ == old(self).store(),
            final(self).store() == final(world)@,
            final(self).owner() == old(self).owner(),
    {
        &mut self.world
    }

    /// Ends the builder and hands the store back.
    pub fn into_world(self) -> (world: Store<T>)
        ensures
            world@ == self.store(),
    {
        self.world
    }

    /// Returns the parent node.
    pub fn parent(&self) -> (parent: NodeId)
        ensures
            parent == self.owner(),
    {
        self.parent
    }

    /// Spawn a new child of the parent node that holds `value` in a slot of
    /// kind `kind`. Fails with `MissingDependency` when the parent is not
    /// alive and with `TickOverflow` when the counter cannot advance; the
    /// store is then unchanged.
    pub fn spawn(&mut self, kind: TypeTag, value: T) -> (res: Result<NodeId, ReactorError>)
        requires
            old(self).wf(),
        ensures
            final(self).wf(),
            final(self).owner() == old(self).owner(),
            match res {
                Ok(id) => {
                    &&& old(self).store().alive(old(self).owner())
                    &&& old(self).store().tick < u64::MAX
                    &&& id == old(self).store().nodes.len()
                    &&& final(self).store() == with_new_cell(old(self).store(), old(self).owner(), kind, value)
                },
                Err(e) => {
                    &&& final(self).store() == old(self).store()
                    &&& e == if !old(self).store().alive(old(self).owner()) {
                        ReactorError::MissingDependency
                    } else {
                        ReactorError::TickOverflow
                    }
                    &&& !old(self).store().alive(old(self).owner()) || old(self).store().tick == u64::MAX
                },
            },
    {
        match create_mutable(&mut self.world, self.parent, kind, value) {
            Ok(m) => Ok(m.cell),
            Err(e) => Err(e),
        }
    }

    /// Spawn a new, empty child of the parent node. Fails with
    /// `MissingDependency`, and changes nothing, when the parent is not
    /// alive.
    pub fn spawn_empty(&mut self) -> (res: Result<NodeId, ReactorError>)
        requires
            old(self).wf(),
        ensures
            final(self).wf(),
            final(self).owner() == old(self).owner(),
            match res {
                Ok(id) => {
                    &&& old(self).store().alive(old(self).owner())
                    &&& id == old(self).store().nodes.len()
                    &&& final(self).store() == old(self).store().spawned(Some(old(self).owner()))
                },
                Err(e) => {
                    &&& !old(self).store().alive(old(self).owner())
                    &&& e == ReactorError::MissingDependency
                    &&& final(self).store() == old(self).store()
                },
            },
    {
        self.world.spawn_child(self.parent)
    }

    /// Create a new callback which is owned by the parent node. Fails with
    /// `MissingDependency`, and registers nothing, when the parent is not
    /// alive.
    pub fn create_callback<P>(&mut self, registry: &mut CallbackRegistry<P>, tag: TypeTag, procedure: P) -> (res:
        Result<Callback, ReactorError>)
        ensures
            final(self).store() == old(self).store(),
            final(self).owner() == old(self).owner(),
            match res {
                Ok(callback) => {
                    &&& old(self).store().alive(old(self).owner())
                    &&& callback.id == old(registry).slots().len()
                    &&& callback.tag == tag
                    &&& final(registry).slots() == old(registry).slots().push(
                        Some(Registered { owner: old(self).owner(), tag, procedure }),
                    )
                    &&& owned_upto(final(registry).slots(), old(self).owner(), final(registry).slots().len() as int)
                        == owned_upto(
                        old(registry).slots(),
                        old(self).owner(),
                        old(registry).slots().len() as int,
                    ).push(callback)
                },
                Err(e) => {
                    &&& !old(self).store().alive(old(self).owner())
                    &&& e == ReactorError::MissingDependency
                    &&& final(registry).slots() == old(registry).slots()
                },
            },
    {
        registry.create_callback(&self.world, self.parent, tag, procedure)
    }

    /// Create a new `Mutable` which is owned by the parent node. Fails as
    /// `create_mutable` does.
    pub fn create_mutable(&mut self, kind: TypeTag, init: T) -> (res: Result<Mutable, ReactorError>)
        requires
            old(self).wf(),
        ensures
            final(self).wf(),
            final(self).owner() == old(self).owner(),
            match res {
                Ok(m) => {
                    &&& old(self).store().alive(old(self).owner())
                    &&& old(self).store().tick < u64::MAX
                    &&& m == Mutable { cell: old(self).store().nodes.len() as NodeId, kind }
                    &&& final(self).store() == with_new_cell(old(self).store(), old(self).owner(), kind, init)
                },
                Err(e) => {
                    &&& final(self).store() == old(self).store()
                    &&& e == if !old(self).store().alive(old(self).owner()) {
                        ReactorError::MissingDependency
                    } else {
                        ReactorError::TickOverflow
                    }
                    &&& !old(self).store().alive(old(self).owner()) || old(self).store().tick == u64::MAX
                },
            },
    {
        create_mutable(&mut self.world, self.parent, kind, init)
    }

    /// Create a new `Derived` on a node below the parent node. The result
    /// is not cached: it is computed again on every read. Fails with
    /// `MissingDependency`, and changes nothing, when the parent is not
    /// alive.
    pub fn create_derived<F>(&mut self, compute: F) -> (res: Result<Derived<F>, ReactorError>)
        requires
            old(self).wf(),
        ensures
            final(self).wf(),
            final(self).owner() == old(self).owner(),
            match res {
                Ok(derived) => {
                    &&& old(self).store().alive(old(self).owner())
                    &&& derived.id == old(self).store().nodes.len()
                    &&& derived.compute == compute
                    &&& final(self).store() == old(self).store().spawned(Some(old(self).owner()))
                },
                Err(e) => {
                    &&& !old(self).store().alive(old(self).owner())
                    &&& e == ReactorError::MissingDependency
                    &&& final(self).store() == old(self).store()
                },
            },
    {
        match self.world.spawn_child(self.parent) {
            Ok(id) => Ok(Derived { id, compute }),
            Err(e) => Err(e),
        }
    }

    /// Create a reactive effect on a new node below the parent node: the
    /// effect runs once, there and then, the node gets the tracking scope of
    /// that first run, and the effect goes into the driver's table under
    /// the new node, so that the driver runs it again whenever what it read
    /// is written. Returns the new node. Fails with `MissingDependency`, and
    /// changes nothing, when the parent is not alive.
    pub fn create_effect<F: EffectFn<T>>(&mut self, table: &mut ReactionTable<EffectReaction<F>>, effect: F) -> (res:
        Result<NodeId, ReactorError>)
        requires
            old(self).wf(),
            old(table).wf(),
            old(table).all_valid::<T>(),
            effect.valid(),
        ensures
            final(self).wf(),
            final(table).wf(),
            final(table).all_valid::<T>(),
            final(self).owner() == old(self).owner(),
            match res {
                Ok(owner) => {
                    &&& old(self).store().alive(old(self).owner())
                    &&& owner == old(self).store().nodes.len()
                    &&& registered(
                        old(table).entries(),
                        final(table).entries(),
                        EffectReaction { effect },
                        owner,
                        old(self).store().spawned(Some(old(self).owner())),
                        final(self).store(),
                        Ok(()),
                    )
                },
                Err(e) => {
                    &&& !old(self).store().alive(old(self).owner())
                    &&& e == ReactorError::MissingDependency
                    &&& final(self).store() == old(self).store()
                    &&& final(table).entries() == old(table).entries()
                },
            },
    {
        match self.world.spawn_child(self.parent) {
            Err(e) => Err(e),
            Ok(owner) => {
                let res = table.add_reaction(&mut self.world, owner, EffectReaction { effect });
                assert(res == Ok::<(), ReactorError>(())) by {
                    assert(res is Ok);
                    assert(res->Ok_0 == ());
                }
                Ok(owner)
            },
        }
    }

    /// Return a reference to the value in the slot of kind `kind` on the
    /// parent node or on the nearest of its ancestors that has such a slot.
    pub fn use_inherited_component(&self, kind: TypeTag) -> (found: Option<&T>)
        requires
            self.wf(),
        ensures
            match found {
                Some(v) => inherited(self.store(), self.owner(), kind) matches Some(node) && *v
                    == self.store().value(node, kind),
                None => inherited(self.store(), self.owner(), kind) is None,
            },
    {
        let mut entity = self.parent;
        loop
            invariant
                self.wf(),
                inherited(self.store(), entity, kind) == inherited(self.store(), self.owner(), kind),
            decreases entity,
        {
            if self.world.has_slot(entity, kind) {
                return match self.world.get(entity, kind) {
                    Ok(v) => Some(v),
                    Err(_) => None,
                };
            }
            match self.world.parent(entity) {
                Some(p) => {
                    if p < entity {
                        entity = p;
                    } else {
                        return None;
                    }
                },
                None => {
                    return None;
                },
            }
        }
    }
}

} // verus!
