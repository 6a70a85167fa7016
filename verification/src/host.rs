//! The bridge to the scene graph: every live node of the store is mirrored
//! by an entity of a Bevy world, below the entity of its parent, and the
//! entity of a razed node is despawned with what hangs below it.

use vstd::prelude::*;
use bevy::ecs::entity::Entity;
use bevy::hierarchy::BuildChildren;
use crate::tracking_scope::NodeId;
use crate::store::{Store, StoreView};

verus! {

/// Bevy's world. Nothing of what it holds is visible here.
#[verifier::external_type_specification]
#[verifier::external_body]
pub struct ExHostWorld(bevy::ecs::world::World);

/// The entities that a Bevy world holds, each by its bits.
pub uninterp spec fn host_entities(world: bevy::ecs::world::World) -> Set<u64>;

/// Calls `World::spawn_empty` and returns the bits of the entity that it
/// made. That entity is in the world when the call returns. Nothing is
/// claimed of the other entities: the call flushes the world's command
/// queue first, and what waits there is not known.
#[verifier::external_body]
fn host_spawn(host: &mut bevy::ecs::world::World) -> (entity: u64)
    ensures
        host_entities(*final(host)).contains(entity),
{
    host.spawn_empty().id().to_bits()
}

/// Calls `BuildChildren::set_parent` on the entity `child`, where `child`
/// and `parent` are both entities of the world; where one of them is not,
/// nothing is called. Nothing is claimed of the world afterwards. The two
/// must differ: Bevy panics when an entity is made its own child.
#[verifier::external_body]
fn host_set_parent(host: &mut bevy::ecs::world::World, child: u64, parent: u64)
    requires
        child != parent,
{
    if let (Ok(child), Ok(parent)) = (Entity::try_from_bits(child), Entity::try_from_bits(parent)) {
        if host.get_entity(parent).is_ok() {
            if let Ok(mut entity) = host.get_entity_mut(child) {
                entity.set_parent(parent);
            }
        }
    }
}

/// Calls `despawn_with_children_recursive` of Bevy's hierarchy on `entity`,
/// without warnings for what is gone already. Nothing is claimed of the
/// world afterwards.
#[verifier::external_body]
fn host_despawn(host: &mut bevy::ecs::world::World, entity: u64) {
    if let Ok(entity) = Entity::try_from_bits(entity) {
        bevy::hierarchy::despawn_with_children_recursive(host, entity, false);
    }
}

/// One call into the host.
#[derive(Clone, Copy, Debug, PartialEq, Eq, Structural)]
pub enum HostCall {
    /// An entity was spawned; these are its bits.
    Spawn(u64),
    /// The host was asked to put the first entity below the second; it
    /// does so where it still holds both.
    SetParent(u64, u64),
    /// The entity was despawned with what hung below it.
    Despawn(u64),
}

/// The entity that mirrors node `node` before a synchronisation, if any.
pub open spec fn had(before: Seq<Option<u64>>, node: int) -> Option<u64> {
    if 0 <= node < before.len() {
        before[node]
    } else {
        None
    }
}

/// The entity that mirrors the parent of node `node`, if the node has a
/// parent and the parent is mirrored.
pub open spec fn parent_entity<T>(store: StoreView<T>, entities: Seq<Option<u64>>, node: int) -> Option<u64> {
    if 0 <= node < store.nodes.len() && store.nodes[node].parent is Some && store.nodes[node].parent->Some_0
        < node {
        entities[store.nodes[node].parent->Some_0 as int]
    } else {
        None
    }
}

/// The calls that bring the mirror of node `node` in line with the store:
/// a live node that has no entity gets one, below the entity of its parent;
/// the entity of a node that is not alive is despawned; else nothing is
/// called.
pub open spec fn node_calls<T>(
    store: StoreView<T>,
    before: Seq<Option<u64>>,
    after: Seq<Option<u64>>,
    node: int,
) -> Seq<HostCall> {
    if store.nodes[node].alive {
        if had(before, node) is Some {
            Seq::empty()
        } else if parent_entity(store, after, node) is Some && parent_entity(store, after, node)
            != after[node] {
            seq![
                HostCall::Spawn(after[node]->Some_0),
                HostCall::SetParent(after[node]->Some_0, parent_entity(store, after, node)->Some_0),
            ]
        } else {
            seq![HostCall::Spawn(after[node]->Some_0)]
        }
    } else if had(before, node) is Some {
        seq![HostCall::Despawn(had(before, node)->Some_0)]
    } else {
        Seq::empty()
    }
}

/// The calls of a synchronisation for the first `n` nodes, in the order in
/// which they are made: node by node, parents before their children.
pub open spec fn sync_calls<T>(store: StoreView<T>, before: Seq<Option<u64>>, after: Seq<Option<u64>>, n: int) -> Seq<
    HostCall,
>
    decreases n,
{
    if n <= 0 {
        Seq::empty()
    } else {
        sync_calls(store, before, after, n - 1) + node_calls(store, before, after, n - 1)
    }
}

/// After a synchronisation a node of the store has an entity if and only if
/// it is alive; a live node that had an entity has kept it; and what the
/// mirror held beyond the nodes of the store is as it was.
pub open spec fn synced<T>(store: StoreView<T>, before: Seq<Option<u64>>, after: Seq<Option<u64>>) -> bool {
    &&& after.len() >= store.nodes.len()
    &&& after.len() >= before.len()
    &&& after.len() == store.nodes.len() || after.len() == before.len()
    &&& forall|node: int|
        0 <= node < store.nodes.len() ==> (#[trigger] after[node] is Some) == store.nodes[node].alive
    &&& forall|node: int|
        0 <= node < store.nodes.len() && store.nodes[node].alive && had(before, node) is Some
            ==> #[trigger] after[node] == had(before, node)
    &&& forall|node: int| store.nodes.len() <= node < before.len() ==> #[trigger] after[node] == before[node]
}

/// What a call has left in the host, as far as the host's own code lets
/// it be known: an entity that was spawned is in the world that the spawn
/// has left.
pub open spec fn call_left(call: HostCall, host: bevy::ecs::world::World) -> bool {
    match call {
        HostCall::Spawn(entity) => host_entities(host).contains(entity),
        HostCall::SetParent(_, _) => true,
        HostCall::Despawn(_) => true,
    }
}

/// The calls `calls` were made on the host one after the other, and took
/// it through the worlds `hosts`.
pub open spec fn host_followed(calls: Seq<HostCall>, hosts: Seq<bevy::ecs::world::World>) -> bool {
    &&& hosts.len() == calls.len() + 1
    &&& forall|k: int| 0 <= k < calls.len() ==> call_left(#[trigger] calls[k], hosts[k + 1])
}

/// The calls for the first `n` nodes depend on the entities of those nodes
/// alone.
pub proof fn lemma_sync_calls_prefix<T>(
    store: StoreView<T>,
    before: Seq<Option<u64>>,
    a: Seq<Option<u64>>,
    b: Seq<Option<u64>>,
    n: int,
)
    requires
        0 <= n <= store.nodes.len(),
        n <= a.len(),
        n <= b.len(),
        forall|k: int| 0 <= k < n ==> a[k] == b[k],
    ensures
        sync_calls(store, before, a, n) == sync_calls(store, before, b, n),
    decreases n,
{
    if n > 0 {
        lemma_sync_calls_prefix(store, before, a, b, n - 1);
        assert(node_calls(store, before, a, n - 1) == node_calls(store, before, b, n - 1));
    }
}

/// Which entity mirrors which node, and the calls into the host that this
/// mirror has made.
pub struct SceneMirror {
    entities: Vec<Option<u64>>,
    calls: Ghost<Seq<HostCall>>,
}

impl SceneMirror {
    /// The entity of each node, by node, as bits.
    pub closed spec fn entities(&self) -> Seq<Option<u64>> {
        self.entities@
    }

    /// The calls into the host that the mirror has made, oldest first.
    pub closed spec fn calls(&self) -> Seq<HostCall> {
        self.calls@
    }

    /// A mirror of nothing.
    pub fn new() -> (mirror: Self)
        ensures
            mirror.entities().len() == 0,
            mirror.calls().len() == 0,
    {
        SceneMirror { entities: Vec::new(), calls: Ghost(Seq::empty()) }
    }

    /// The bits of the entity that mirrors `node`, if any.
    pub fn entity(&self, node: NodeId) -> (entity: Option<u64>)
        ensures
            entity == had(self.entities(), node as int),
    {
        if node < self.entities.len() {
            self.entities[node]
        } else {
            None
        }
    }

    /// Brings the host in line with the store, node by node in the order of
    /// their identifiers, so that a parent is dealt with before its
    /// children.
    pub fn sync<T>(&mut self, store: &Store<T>, host: &mut bevy::ecs::world::World)
        ensures
            synced(store@, old(self).entities(), final(self).entities()),
            final(self).calls() == old(self).calls() + sync_calls(
                store@,
                old(self).entities(),
                final(self).entities(),
                store@.nodes.len() as int,
            ),
            exists|hosts: Seq<bevy::ecs::world::World>| #[trigger]
                host_followed(
                    sync_calls(store@, old(self).entities(), final(self).entities(), store@.nodes.len() as int),
                    hosts,
                ) && hosts[0] == *old(host) && hosts[hosts.len() - 1] == *final(host),
    {
        let ghost before = self.entities@;
        let ghost mut hosts: Seq<bevy::ecs::world::World> = seq![*host];
        let ghost mut added: Seq<HostCall> = Seq::empty();
        let count = store.len();
        while self.entities.len() < count
            invariant
                count == store@.nodes.len(),
                self.calls@ == old(self).calls@,
                *host == *old(host),
                before.len() <= self.entities@.len(),
                self.entities@.len() <= count || self.entities@.len() == before.len(),
                forall|k: int| 0 <= k < self.entities@.len() ==> #[trigger] self.entities@[k] == had(before, k),
            decreases count - self.entities@.len(),
        {
            self.entities.push(None);
        }
        let mut node: usize = 0;
        while node < count
            invariant
                node <= count,
                count == store@.nodes.len(),
                count <= self.entities@.len(),
                before == old(self).entities@,
                self.entities@.len() == count || self.entities@.len() == before.len(),
                self.entities@.len() >= before.len(),
                forall|k: int| node <= k < self.entities@.len() ==> #[trigger] self.entities@[k] == had(before, k),
                forall|k: int| 0 <= k < node ==> (#[trigger] self.entities@[k] is Some) == store@.nodes[k].alive,
                forall|k: int|
                    0 <= k < node && store@.nodes[k].alive && had(before, k) is Some ==> #[trigger] self.entities@[k]
                        == had(before, k),
                self.calls@ == old(self).calls@ + sync_calls(store@, before, self.entities@, node as int),
                added == sync_calls(store@, before, self.entities@, node as int),
                host_followed(added, hosts),
                hosts[0] == *old(host),
                hosts[hosts.len() - 1] == *host,
            decreases count - node,
        {
            let ghost done = self.entities@;
            let ghost made_before = self.calls@;
            let alive = store.is_alive(node);
            assert(done[node as int] == had(before, node as int));
            match self.entities[node] {
                None => {
                    if alive {
                        let entity = host_spawn(host);
                        self.entities[node] = Some(entity);
                        proof {
                            self.calls@ = self.calls@.push(HostCall::Spawn(entity));
                            added = added.push(HostCall::Spawn(entity));
                            hosts = hosts.push(*host);
                        }
                        match store.parent(node) {
                            Some(p) => {
                                if p < node {
                                    match self.entities[p] {
                                        Some(above) => {
                                            if above != entity {
                                                host_set_parent(host, entity, above);
                                                proof {
                                                    self.calls@ = self.calls@.push(
                                                        HostCall::SetParent(entity, above),
                                                    );
                                                    added = added.push(HostCall::SetParent(entity, above));
                                                    hosts = hosts.push(*host);
                                                }
                                            }
                                        },
                                        None => {},
                                    }
                                }
                            },
                            None => {},
                        }
                        assert(self.calls@ =~= made_before + node_calls(
                            store@,
                            before,
                            self.entities@,
                            node as int,
                        ));
                    } else {
                        assert(self.calls@ =~= made_before + node_calls(
                            store@,
                            before,
                            self.entities@,
                            node as int,
                        ));
                    }
                },
                Some(entity) => {
                    if !alive {
                        host_despawn(host, entity);
                        self.entities[node] = None;
                        proof {
                            self.calls@ = self.calls@.push(HostCall::Despawn(entity));
                            added = added.push(HostCall::Despawn(entity));
                            hosts = hosts.push(*host);
                        }
                    }
                    assert(self.calls@ =~= made_before + node_calls(store@, before, self.entities@, node as int));
                },
            }
            proof {
                lemma_sync_calls_prefix(store@, before, done, self.entities@, node as int);
                assert(self.calls@ =~= old(self).calls@ + sync_calls(store@, before, self.entities@, node + 1));
                assert(added =~= sync_calls(store@, before, self.entities@, node + 1));
            }
            node += 1;
        }
    }
}

} // verus!
