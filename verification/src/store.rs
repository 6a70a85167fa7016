//! The change-tick store: nodes in a forest, typed slots on the nodes, and a
//! counter that stamps every write.

use vstd::prelude::*;
use crate::error::ReactorError;
use crate::tracking_scope::{Dependency, NodeId, TrackingScope, TypeTag};

verus! {

/// A value attached to a node, with the tick of its last write.
pub struct Slot<T> {
    pub kind: TypeTag,
    pub value: T,
    pub changed: u64,
}

/// A node as contracts see it. A razed node stays as a dead entry, so that
/// its identifier is never handed out again.
pub struct Node<T> {
    pub alive: bool,
    pub parent: Option<NodeId>,
    /// The slots of the node, at most one of each kind.
    pub slots: Seq<Slot<T>>,
    pub scope: Option<TrackingScope>,
    /// What the node shows has changed since its parent last looked.
    pub display_changed: bool,
}

/// The store as contracts see it.
pub struct StoreView<T> {
    pub nodes: Seq<Node<T>>,
    pub tick: u64,
}

/// The place of the first slot of kind `kind` among `slots`, from place
/// `from` on.
pub open spec fn first_slot<T>(slots: Seq<Slot<T>>, kind: TypeTag, from: int) -> Option<int>
    decreases slots.len() - from,
{
    if from < 0 || from >= slots.len() {
        None
    } else if slots[from].kind == kind {
        Some(from)
    } else {
        first_slot(slots, kind, from + 1)
    }
}

/// The slots after `value` has been written under kind `kind` at tick
/// `changed`: the slot of that kind holds it, and a slot is added where
/// there was none of that kind. Slots of other kinds are as they were.
pub open spec fn put_slot<T>(slots: Seq<Slot<T>>, kind: TypeTag, value: T, changed: u64) -> Seq<Slot<T>> {
    match first_slot(slots, kind, 0) {
        Some(i) => slots.update(i, Slot { kind, value, changed }),
        None => slots.push(Slot { kind, value, changed }),
    }
}

impl<T> StoreView<T> {
    /// Node `id` exists and has not been razed.
    pub open spec fn alive(self, id: NodeId) -> bool {
        id < self.nodes.len() && self.nodes[id as int].alive
    }

    /// The parent of node `id`, where it has one.
    pub open spec fn parent(self, id: NodeId) -> Option<NodeId> {
        if id < self.nodes.len() {
            self.nodes[id as int].parent
        } else {
            None
        }
    }

    /// Node `id` is alive and carries a slot of kind `kind`.
    pub open spec fn has_slot(self, id: NodeId, kind: TypeTag) -> bool {
        self.alive(id) && first_slot(self.nodes[id as int].slots, kind, 0) is Some
    }

    /// The slot of kind `kind` on node `id`.
    pub open spec fn slot(self, id: NodeId, kind: TypeTag) -> Slot<T>
        recommends
            self.has_slot(id, kind),
    {
        self.nodes[id as int].slots[first_slot(self.nodes[id as int].slots, kind, 0)->Some_0]
    }

    /// The value in the slot of kind `kind` on node `id`.
    pub open spec fn value(self, id: NodeId, kind: TypeTag) -> T
        recommends
            self.has_slot(id, kind),
    {
        self.slot(id, kind).value
    }

    /// The tick of the last write to a dependency, where it is in the store.
    pub open spec fn last_write(self, dep: Dependency) -> Option<u64> {
        if self.has_slot(dep.id, dep.kind) {
            Some(self.slot(dep.id, dep.kind).changed)
        } else {
            None
        }
    }

    /// The dependency has been written after tick `tick`.
    pub open spec fn changed_since(self, dep: Dependency, tick: u64) -> bool {
        self.last_write(dep) matches Some(t) && t > tick
    }

    /// A scope is stale when one of its dependencies has been written after
    /// the scope's baseline.
    pub open spec fn stale(self, scope: TrackingScope) -> bool {
        exists|dep: Dependency| #[trigger]
            scope.deps().contains(dep) && self.changed_since(dep, scope.tick())
    }

    /// The tracking scope attached to node `id`, where there is one.
    pub open spec fn scope(self, id: NodeId) -> Option<TrackingScope> {
        if self.alive(id) {
            self.nodes[id as int].scope
        } else {
            None
        }
    }

    /// Node `id` is alive and marked: what it shows has changed.
    pub open spec fn display_changed(self, id: NodeId) -> bool {
        self.alive(id) && self.nodes[id as int].display_changed
    }

    /// Node `i` is `root` or lies below it.
    pub open spec fn in_subtree(self, root: NodeId, i: NodeId) -> bool
        decreases i,
    {
        i == root || (i < self.nodes.len() && (self.nodes[i as int].parent matches Some(p) && p < i
            && self.in_subtree(root, p)))
    }

    /// No node of the subtree below `root` is alive.
    pub open spec fn subtree_absent(self, root: NodeId) -> bool {
        forall|i: NodeId| #[trigger] self.in_subtree(root, i) ==> !self.alive(i)
    }

    /// The store after a live node without slots, scope or mark has been
    /// added under `parent`.
    pub open spec fn spawned(self, parent: Option<NodeId>) -> StoreView<T> {
        StoreView {
            nodes: self.nodes.push(
                Node { alive: true, parent, slots: Seq::empty(), scope: None, display_changed: false },
            ),
            tick: self.tick,
        }
    }

    /// Node `i` as it is left when the subtree that holds it is razed.
    pub open spec fn dead_node(self, i: int) -> Node<T> {
        Node {
            alive: false,
            parent: self.nodes[i].parent,
            slots: Seq::empty(),
            scope: None,
            display_changed: false,
        }
    }

    /// Node `i` as it is after the subtree below `root` has been razed.
    pub open spec fn razed_node(self, root: NodeId, i: int) -> Node<T> {
        if self.in_subtree(root, i as NodeId) {
            self.dead_node(i)
        } else {
            self.nodes[i]
        }
    }

    /// The store after the subtree below `root` has been razed.
    pub open spec fn razed(self, root: NodeId) -> StoreView<T> {
        StoreView {
            nodes: Seq::new(self.nodes.len(), |i: int| self.razed_node(root, i)),
            tick: self.tick,
        }
    }

    /// The store with the slots of node `id` replaced by `slots`.
    pub open spec fn with_slots(self, id: NodeId, slots: Seq<Slot<T>>) -> StoreView<T> {
        StoreView {
            nodes: self.nodes.update(
                id as int,
                Node {
                    alive: self.nodes[id as int].alive,
                    parent: self.nodes[id as int].parent,
                    slots,
                    scope: self.nodes[id as int].scope,
                    display_changed: self.nodes[id as int].display_changed,
                },
            ),
            tick: self.tick,
        }
    }

    /// The store after `value` has been written to the slot of kind `kind`
    /// on node `id`: the counter has advanced by one and the slot bears the
    /// new tick. The other slots of the node are as they were.
    pub open spec fn written(self, id: NodeId, kind: TypeTag, value: T) -> StoreView<T> {
        StoreView {
            nodes: self.with_slots(
                id,
                put_slot(self.nodes[id as int].slots, kind, value, (self.tick + 1) as u64),
            ).nodes,
            tick: (self.tick + 1) as u64,
        }
    }

    /// The store after the slot of kind `kind` has been taken off node `id`.
    pub open spec fn without_slot(self, id: NodeId, kind: TypeTag) -> StoreView<T> {
        self.with_slots(
            id,
            self.nodes[id as int].slots.remove(first_slot(self.nodes[id as int].slots, kind, 0)->Some_0),
        )
    }

    /// The store after node `id` has been given the tracking scope `scope`.
    pub open spec fn with_scope(self, id: NodeId, scope: Option<TrackingScope>) -> StoreView<T> {
        StoreView {
            nodes: self.nodes.update(
                id as int,
                Node {
                    alive: self.nodes[id as int].alive,
                    parent: self.nodes[id as int].parent,
                    slots: self.nodes[id as int].slots,
                    scope,
                    display_changed: self.nodes[id as int].display_changed,
                },
            ),
            tick: self.tick,
        }
    }

    /// The store after the mark of node `id` has been set to `changed`. A
    /// node that is not alive has no mark to set.
    pub open spec fn with_mark(self, id: NodeId, changed: bool) -> StoreView<T> {
        if self.alive(id) {
            StoreView {
                nodes: self.nodes.update(
                    id as int,
                    Node {
                        alive: self.nodes[id as int].alive,
                        parent: self.nodes[id as int].parent,
                        slots: self.nodes[id as int].slots,
                        scope: self.nodes[id as int].scope,
                        display_changed: changed,
                    },
                ),
                tick: self.tick,
            }
        } else {
            self
        }
    }

    /// The invariant of the store.
    pub open spec fn wf(self) -> bool {
        &&& self.nodes.len() <= usize::MAX
        &&& forall|i: int|
            0 <= i < self.nodes.len() ==> (#[trigger] self.nodes[i].parent matches Some(p) ==> p < i)
        &&& forall|i: int|
            0 <= i < self.nodes.len() && (#[trigger] self.nodes[i]).alive ==> (self.nodes[i].parent matches Some(
                p,
            ) ==> self.nodes[p as int].alive)
        &&& forall|i: int|
            0 <= i < self.nodes.len() && !(#[trigger] self.nodes[i]).alive ==> self.nodes[i].slots.len() == 0
                && self.nodes[i].scope is None && !self.nodes[i].display_changed
        &&& forall|i: int, j: int|
            0 <= i < self.nodes.len() && 0 <= j < self.nodes[i].slots.len() ==> (
            #[trigger] self.nodes[i].slots[j]).changed <= self.tick
        &&& forall|i: int, j: int, k: int|
            0 <= i < self.nodes.len() && 0 <= j < k < self.nodes[i].slots.len() ==> (
            #[trigger] self.nodes[i].slots[j]).kind != (#[trigger] self.nodes[i].slots[k]).kind
    }

    /// What every operation on the store keeps: nodes are only added, a
    /// node's parent never changes, a razed node stays razed, and the
    /// counter never goes back.
    pub open spec fn precedes(self, later: StoreView<T>) -> bool {
        &&& self.nodes.len() <= later.nodes.len()
        &&& self.tick <= later.tick
        &&& forall|i: int|
            0 <= i < self.nodes.len() ==> (#[trigger] later.nodes[i]).parent == self.nodes[i].parent
        &&& forall|i: int|
            0 <= i < self.nodes.len() && (#[trigger] later.nodes[i]).alive ==> self.nodes[i].alive
    }
}

/// What the store keeps of one node.
struct NodeData<T> {
    alive: bool,
    parent: Option<NodeId>,
    slots: Vec<Slot<T>>,
    scope: Option<TrackingScope>,
    display_changed: bool,
}

impl<T> NodeData<T> {
    /// The node as contracts see it.
    spec fn seen(self) -> Node<T> {
        Node {
            alive: self.alive,
            parent: self.parent,
            slots: self.slots@,
            scope: self.scope,
            display_changed: self.display_changed,
        }
    }
}

/// The store.
pub struct Store<T> {
    nodes: Vec<NodeData<T>>,
    tick: u64,
}

impl<T> View for Store<T> {
    type V = StoreView<T>;

    closed spec fn view(&self) -> StoreView<T> {
        StoreView { nodes: Seq::new(self.nodes@.len(), |i: int| self.nodes@[i].seen()), tick: self.tick }
    }
}

/// Where no slot of a kind comes before place `i` and the slot at place `i`
/// is of that kind, it is the first of its kind.
pub proof fn lemma_first_slot_found<T>(slots: Seq<Slot<T>>, kind: TypeTag, from: int, i: int)
    requires
        0 <= from <= i < slots.len(),
        forall|k: int| from <= k < i ==> slots[k].kind != kind,
        slots[i].kind == kind,
    ensures
        first_slot(slots, kind, from) == Some(i),
    decreases i - from,
{
    if from < i {
        lemma_first_slot_found(slots, kind, from + 1, i);
    }
}

/// Where no slot from place `from` on is of a kind, there is no first of
/// that kind; and a first of a kind is of that kind.
pub proof fn lemma_first_slot<T>(slots: Seq<Slot<T>>, kind: TypeTag, from: int)
    requires
        0 <= from,
    ensures
        first_slot(slots, kind, from) is None <==> forall|k: int|
            from <= k < slots.len() ==> (#[trigger] slots[k]).kind != kind,
        first_slot(slots, kind, from) matches Some(i) ==> from <= i < slots.len() && slots[i].kind == kind,
    decreases slots.len() - from,
{
    if from < slots.len() {
        lemma_first_slot(slots, kind, from + 1);
        if slots[from].kind != kind {
            assert forall|k: int| from <= k < slots.len() && first_slot(slots, kind, from) is None implies (
            #[trigger] slots[k]).kind != kind by {
                if k > from {
                }
            }
        }
    }
}

impl<T> Store<T> {
    /// The invariant of the store.
    pub open spec fn wf(&self) -> bool {
        self@.wf()
    }

    /// The store is seen node by node.
    proof fn lemma_seen(&self)
        ensures
            self@.tick == self.tick,
            self@.nodes.len() == self.nodes@.len(),
            forall|i: int| 0 <= i < self.nodes@.len() ==> #[trigger] self@.nodes[i] == self.nodes@[i].seen(),
    {
    }

    /// An empty store, at tick 0.
    pub fn new() -> (world: Self)
        ensures
            world.wf(),
            world@.nodes.len() == 0,
            world@.tick == 0,
    {
        Store { nodes: Vec::new(), tick: 0 }
    }

    /// An empty store whose counter starts at `tick`.
    pub fn starting_at(tick: u64) -> (world: Self)
        ensures
            world.wf(),
            world@.nodes.len() == 0,
            world@.tick == tick,
    {
        Store { nodes: Vec::new(), tick }
    }

    /// The current value of the change counter.
    pub fn change_tick(&self) -> (tick: u64)
        ensures
            tick == self@.tick,
    {
        self.tick
    }

    /// How many nodes were ever spawned.
    pub fn len(&self) -> (n: usize)
        ensures
            n == self@.nodes.len(),
    {
        self.nodes.len()
    }

    /// Whether node `id` exists and has not been razed.
    pub fn is_alive(&self, id: NodeId) -> (alive: bool)
        ensures
            alive == self@.alive(id),
    {
        id < self.nodes.len() && self.nodes[id].alive
    }

    /// The parent of node `id`.
    pub fn parent(&self, id: NodeId) -> (parent: Option<NodeId>)
        ensures
            parent == self@.parent(id),
    {
        if id < self.nodes.len() {
            self.nodes[id].parent
        } else {
            None
        }
    }

    /// Adds a live root node and returns its identifier.
    pub fn spawn_empty(&mut self) -> (id: NodeId)
        requires
            old(self).wf(),
        ensures
            final(self).wf(),
            id == old(self)@.nodes.len(),
            final(self)@ == old(self)@.spawned(None),
            old(self)@.precedes(final(self)@),
    {
        let id = self.nodes.len();
        self.nodes.push(
            NodeData { alive: true, parent: None, slots: Vec::new(), scope: None, display_changed: false },
        );
        let count = self.nodes.len();
        assert(count == id + 1);
        assert(self@.nodes =~= old(self)@.spawned(None).nodes);
        id
    }

    /// Adds a live node below `parent` and returns its identifier. Fails
    /// with `MissingDependency`, and changes nothing, when `parent` is not
    /// alive.
    pub fn spawn_child(&mut self, parent: NodeId) -> (res: Result<NodeId, ReactorError>)
        requires
            old(self).wf(),
        ensures
            final(self).wf(),
            old(self)@.precedes(final(self)@),
            match res {
                Ok(id) => {
                    &&& old(self)@.alive(parent)
                    &&& id == old(self)@.nodes.len()
                    &&& final(self)@ == old(self)@.spawned(Some(parent))
                },
                Err(e) => {
                    &&& !old(self)@.alive(parent)
                    &&& e == ReactorError::MissingDependency
                    &&& final(self)@ == old(self)@
                },
            },
    {
        if !self.is_alive(parent) {
            return Err(ReactorError::MissingDependency);
        }
        let id = self.nodes.len();
        self.nodes.push(
            NodeData { alive: true, parent: Some(parent), slots: Vec::new(), scope: None, display_changed: false },
        );
        let count = self.nodes.len();
        assert(count == id + 1);
        assert(self@.nodes =~= old(self)@.spawned(Some(parent)).nodes);
        Ok(id)
    }

    /// Razes the subtree below `root`: the node and everything under it
    /// leave the store, with their slots, scopes and marks. Returns whether
    /// `root` was alive; where it was not, nothing changes.
    pub fn despawn_recursive(&mut self, root: NodeId) -> (was_alive: bool)
        requires
            old(self).wf(),
        ensures
            final(self).wf(),
            was_alive == old(self)@.alive(root),
            final(self)@ == old(self)@.razed(root),
            final(self)@.subtree_absent(root),
            old(self)@.precedes(final(self)@),
    {
        proof {
            lemma_razed(old(self)@, root);
        }
        if !self.is_alive(root) {
            proof {
                lemma_razed_dead_root(self@, root);
            }
            return false;
        }
        let ghost before = self@;
        self.clear_node(root);
        assert forall|k: int| 0 <= k < root implies #[trigger] self@.nodes[k] == before.razed_node(root, k) by {
            if before.in_subtree(root, k as NodeId) {
                lemma_subtree_above(before, root, k as NodeId);
            }
        }
        proof {
            self.lemma_seen();
        }
        let mut i: usize = root + 1;
        while i < self.nodes.len()
            invariant
                before.wf(),
                before.alive(root),
                root < i <= self.nodes.len(),
                self.nodes@.len() == self@.nodes.len(),
                self@.nodes.len() == before.nodes.len(),
                self@.tick == before.tick,
                forall|k: int| 0 <= k < i ==> #[trigger] self@.nodes[k] == before.razed_node(root, k),
                forall|k: int| i <= k < before.nodes.len() ==> #[trigger] self@.nodes[k] == before.nodes[k],
            decreases self.nodes.len() - i,
        {
            proof {
                self.lemma_seen();
            }
            let mut hit = false;
            if self.nodes[i].alive {
                if let Some(p) = self.nodes[i].parent {
                    assert(self@.nodes[i as int] == self.nodes@[i as int].seen());
                    assert(self@.nodes[i as int] == before.nodes[i as int]);
                    assert(before.nodes[i as int].parent == Some(p));
                    assert(self@.nodes[p as int] == before.razed_node(root, p as int));
                    if !self.nodes[p].alive {
                        hit = true;
                    }
                }
            }
            assert(self@.nodes[i as int] == before.nodes[i as int]);
            assert(hit == (before.nodes[i as int].alive && before.in_subtree(root, i)));
            if hit {
                self.clear_node(i);
            }
            proof {
                self.lemma_seen();
            }
            assert(self@.nodes[i as int] == before.razed_node(root, i as int)) by {
                if !hit && before.in_subtree(root, i) {
                    assert(before.nodes[i as int].slots =~= Seq::<Slot<T>>::empty());
                }
            }
            i += 1;
        }
        assert(self@.nodes =~= before.razed(root).nodes);
        true
    }

    /// Marks node `id` as razed and drops what it held.
    fn clear_node(&mut self, id: NodeId)
        requires
            id < old(self)@.nodes.len(),
        ensures
            final(self)@.tick == old(self)@.tick,
            final(self)@.nodes == old(self)@.nodes.update(id as int, old(self)@.dead_node(id as int)),
    {
        let parent = self.nodes[id].parent;
        self.nodes.set(
            id,
            NodeData { alive: false, parent, slots: Vec::new(), scope: None, display_changed: false },
        );
        assert(self@.nodes =~= old(self)@.nodes.update(id as int, old(self)@.dead_node(id as int)));
    }

    /// The place of the slot of kind `kind` among the slots of node `id`.
    fn find_slot(&self, id: NodeId, kind: TypeTag) -> (at: Option<usize>)
        requires
            id < self@.nodes.len(),
        ensures
            match at {
                Some(i) => first_slot(self@.nodes[id as int].slots, kind, 0) == Some(i as int) && i
                    < self.nodes@[id as int].slots@.len(),
                None => first_slot(self@.nodes[id as int].slots, kind, 0) is None,
            },
    {
        proof {
            self.lemma_seen();
        }
        let slots = &self.nodes[id].slots;
        let mut i: usize = 0;
        while i < slots.len()
            invariant
                i <= slots@.len(),
                id < self@.nodes.len(),
                id < self.nodes@.len(),
                slots@ == self.nodes@[id as int].slots@,
                slots@ == self@.nodes[id as int].slots,
                forall|k: int| 0 <= k < i ==> (#[trigger] slots@[k]).kind != kind,
            decreases slots@.len() - i,
        {
            if slots[i].kind == kind {
                proof {
                    lemma_first_slot_found(slots@, kind, 0, i as int);
                }
                return Some(i);
            }
            i += 1;
        }
        proof {
            lemma_first_slot(slots@, kind, 0);
        }
        None
    }

    /// Whether node `id` is alive and carries a slot of kind `kind`.
    pub fn has_slot(&self, id: NodeId, kind: TypeTag) -> (found: bool)
        ensures
            found == self@.has_slot(id, kind),
    {
        if id < self.nodes.len() && self.nodes[id].alive {
            self.find_slot(id, kind).is_some()
        } else {
            false
        }
    }

    /// Writes `value` to the slot of kind `kind` on node `id`, which gets
    /// such a slot if it has none, and stamps the slot with the next tick.
    /// The slots of other kinds on the node stay. Fails with
    /// `MissingDependency` when the node is not alive, and with
    /// `TickOverflow` when the counter cannot advance; the store is then
    /// unchanged.
    pub fn insert(&mut self, id: NodeId, kind: TypeTag, value: T) -> (res: Result<(), ReactorError>)
        requires
            old(self).wf(),
        ensures
            final(self).wf(),
            old(self)@.precedes(final(self)@),
            match res {
                Ok(_) => {
                    &&& old(self)@.alive(id)
                    &&& old(self)@.tick < u64::MAX
                    &&& final(self)@ == old(self)@.written(id, kind, value)
                },
                Err(e) => {
                    &&& final(self)@ == old(self)@
                    &&& e == if !old(self)@.alive(id) {
                        ReactorError::MissingDependency
                    } else {
                        ReactorError::TickOverflow
                    }
                    &&& !old(self)@.alive(id) || old(self)@.tick == u64::MAX
                },
            },
    {
        if !self.is_alive(id) {
            return Err(ReactorError::MissingDependency);
        }
        if self.tick == u64::MAX {
            return Err(ReactorError::TickOverflow);
        }
        let at = self.find_slot(id, kind);
        let ghost slots = self@.nodes[id as int].slots;
        proof {
            lemma_first_slot(slots, kind, 0);
        }
        self.tick = self.tick + 1;
        match at {
            Some(i) => {
                self.nodes[id].slots.set(i, Slot { kind, value, changed: self.tick });
            },
            None => {
                self.nodes[id].slots.push(Slot { kind, value, changed: self.tick });
            },
        }
        proof {
            assert(self@.nodes[id as int].slots =~= put_slot(slots, kind, value, self.tick));
            assert(self@.nodes =~= old(self)@.written(id, kind, value).nodes);
            lemma_written(old(self)@, id, kind, value);
        }
        Ok(())
    }

    /// Writes `value` to the slot of kind `kind` on node `id` and stamps it
    /// with the next tick, whether or not the value differs from the one
    /// that was there. Fails with `MissingDependency` when the node is not
    /// alive or has no slot of that kind, and with `TickOverflow` when the
    /// counter cannot advance; the store is then unchanged.
    pub fn set(&mut self, id: NodeId, kind: TypeTag, value: T) -> (res: Result<(), ReactorError>)
        requires
            old(self).wf(),
        ensures
            final(self).wf(),
            old(self)@.precedes(final(self)@),
            match res {
                Ok(_) => {
                    &&& old(self)@.has_slot(id, kind)
                    &&& old(self)@.tick < u64::MAX
                    &&& final(self)@ == old(self)@.written(id, kind, value)
                },
                Err(e) => {
                    &&& final(self)@ == old(self)@
                    &&& e == if !old(self)@.has_slot(id, kind) {
                        ReactorError::MissingDependency
                    } else {
                        ReactorError::TickOverflow
                    }
                    &&& !old(self)@.has_slot(id, kind) || old(self)@.tick == u64::MAX
                },
            },
    {
        if !self.has_slot(id, kind) {
            return Err(ReactorError::MissingDependency);
        }
        self.insert(id, kind, value)
    }

    /// The value in the slot of kind `kind` on node `id`. Fails with
    /// `MissingDependency` when the node is not alive or has no slot of that
    /// kind.
    pub fn get(&self, id: NodeId, kind: TypeTag) -> (res: Result<&T, ReactorError>)
        ensures
            match res {
                Ok(v) => self@.has_slot(id, kind) && *v == self@.value(id, kind),
                Err(e) => !self@.has_slot(id, kind) && e == ReactorError::MissingDependency,
            },
    {
        if id < self.nodes.len() && self.nodes[id].alive {
            match self.find_slot(id, kind) {
                Some(i) => Ok(&self.nodes[id].slots[i].value),
                None => Err(ReactorError::MissingDependency),
            }
        } else {
            Err(ReactorError::MissingDependency)
        }
    }

    /// Takes the slot of kind `kind` off node `id` and returns its value.
    /// The slots of other kinds stay. Fails with `MissingDependency`, and
    /// changes nothing, when the node is not alive or has no slot of that
    /// kind.
    pub fn remove(&mut self, id: NodeId, kind: TypeTag) -> (res: Result<T, ReactorError>)
        requires
            old(self).wf(),
        ensures
            final(self).wf(),
            old(self)@.precedes(final(self)@),
            match res {
                Ok(v) => {
                    &&& old(self)@.has_slot(id, kind)
                    &&& v == old(self)@.value(id, kind)
                    &&& final(self)@ == old(self)@.without_slot(id, kind)
                    &&& !final(self)@.has_slot(id, kind)
                },
                Err(e) => {
                    &&& !old(self)@.has_slot(id, kind)
                    &&& e == ReactorError::MissingDependency
                    &&& final(self)@ == old(self)@
                },
            },
    {
        if !self.is_alive(id) {
            return Err(ReactorError::MissingDependency);
        }
        match self.find_slot(id, kind) {
            None => Err(ReactorError::MissingDependency),
            Some(i) => {
                let ghost slots = self@.nodes[id as int].slots;
                let slot = self.nodes[id].slots.remove(i);
                proof {
                    assert(self@.nodes[id as int].slots =~= slots.remove(i as int));
                    assert(self@.nodes =~= old(self)@.without_slot(id, kind).nodes);
                    lemma_removed(old(self)@, id, kind);
                }
                Ok(slot.value)
            },
        }
    }

    /// The tick of the last write to `dep`, where it is in the store.
    pub fn last_write(&self, dep: Dependency) -> (tick: Option<u64>)
        ensures
            tick == self@.last_write(dep),
    {
        if dep.id < self.nodes.len() && self.nodes[dep.id].alive {
            match self.find_slot(dep.id, dep.kind) {
                Some(i) => Some(self.nodes[dep.id].slots[i].changed),
                None => None,
            }
        } else {
            None
        }
    }

    /// Whether `dep` has been written after tick `tick`. A dependency that
    /// is no longer in the store counts as unchanged.
    pub fn changed_since(&self, dep: Dependency, tick: u64) -> (changed: bool)
        ensures
            changed == self@.changed_since(dep, tick),
    {
        match self.last_write(dep) {
            Some(t) => t > tick,
            None => false,
        }
    }

    /// Attaches `scope` to node `id` as its tracking scope, in place of the
    /// one it had. Fails with `MissingDependency`, and changes nothing, when
    /// the node is not alive.
    pub fn insert_scope(&mut self, id: NodeId, scope: TrackingScope) -> (res: Result<(), ReactorError>)
        requires
            old(self).wf(),
        ensures
            final(self).wf(),
            old(self)@.precedes(final(self)@),
            match res {
                Ok(_) => old(self)@.alive(id) && final(self)@ == old(self)@.with_scope(id, Some(scope)),
                Err(e) => !old(self)@.alive(id) && e == ReactorError::MissingDependency && final(self)@ == old(
                    self,
                )@,
            },
    {
        if !self.is_alive(id) {
            return Err(ReactorError::MissingDependency);
        }
        self.nodes[id].scope = Some(scope);
        assert(self@.nodes =~= old(self)@.with_scope(id, Some(scope)).nodes);
        proof {
            lemma_same_slots(old(self)@, self@);
        }
        Ok(())
    }

    /// Takes the tracking scope off node `id`, where it has one.
    pub fn take_scope(&mut self, id: NodeId) -> (scope: Option<TrackingScope>)
        requires
            old(self).wf(),
        ensures
            final(self).wf(),
            old(self)@.precedes(final(self)@),
            scope == old(self)@.scope(id),
            final(self)@ == if old(self)@.alive(id) {
                old(self)@.with_scope(id, None)
            } else {
                old(self)@
            },
    {
        if !self.is_alive(id) {
            return None;
        }
        let scope = self.nodes[id].scope.take();
        assert(self@.nodes =~= old(self)@.with_scope(id, None).nodes);
        proof {
            lemma_same_slots(old(self)@, self@);
        }
        scope
    }

    /// Whether node `id` has a tracking scope.
    pub fn has_scope(&self, id: NodeId) -> (found: bool)
        ensures
            found == self@.scope(id).is_some(),
    {
        id < self.nodes.len() && self.nodes[id].alive && self.nodes[id].scope.is_some()
    }

    /// Whether the tracking scope of node `id` is stale. A node without a
    /// scope is never stale.
    pub fn is_stale(&self, id: NodeId) -> (stale: bool)
        ensures
            stale == (self@.scope(id) matches Some(scope) && self@.stale(scope)),
    {
        if id < self.nodes.len() && self.nodes[id].alive {
            match &self.nodes[id].scope {
                Some(scope) => scope.is_stale(self),
                None => false,
            }
        } else {
            false
        }
    }

    /// Marks node `id`: what it shows has changed, and its parent is to
    /// look again. Fails with `MissingDependency`, and changes nothing,
    /// when the node is not alive.
    pub fn mark_display_changed(&mut self, id: NodeId) -> (res: Result<(), ReactorError>)
        requires
            old(self).wf(),
        ensures
            final(self).wf(),
            old(self)@.precedes(final(self)@),
            final(self)@ == old(self)@.with_mark(id, true),
            match res {
                Ok(_) => old(self)@.alive(id),
                Err(e) => !old(self)@.alive(id) && e == ReactorError::MissingDependency,
            },
    {
        if !self.is_alive(id) {
            return Err(ReactorError::MissingDependency);
        }
        self.nodes[id].display_changed = true;
        assert(self@.nodes =~= old(self)@.with_mark(id, true).nodes);
        proof {
            lemma_same_slots(old(self)@, self@);
        }
        Ok(())
    }

    /// Whether node `id` is alive and marked.
    pub fn display_changed(&self, id: NodeId) -> (changed: bool)
        ensures
            changed == self@.display_changed(id),
    {
        id < self.nodes.len() && self.nodes[id].alive && self.nodes[id].display_changed
    }

    /// Takes the mark off node `id` and says whether it was marked.
    pub fn take_display_changed(&mut self, id: NodeId) -> (changed: bool)
        requires
            old(self).wf(),
        ensures
            final(self).wf(),
            old(self)@.precedes(final(self)@),
            changed == old(self)@.display_changed(id),
            final(self)@ == old(self)@.with_mark(id, false),
    {
        if !self.is_alive(id) {
            return false;
        }
        let changed = self.nodes[id].display_changed;
        self.nodes[id].display_changed = false;
        assert(self@.nodes =~= old(self)@.with_mark(id, false).nodes);
        proof {
            lemma_same_slots(old(self)@, self@);
        }
        changed
    }
}

/// A store whose nodes have the slots, parents and liveness of a
/// well-formed store at the same tick, and no scope or mark on a razed
/// node, is well-formed.
proof fn lemma_same_slots<T>(a: StoreView<T>, b: StoreView<T>)
    requires
        a.wf(),
        a.nodes.len() == b.nodes.len(),
        a.tick == b.tick,
        forall|i: int|
            0 <= i < a.nodes.len() ==> (#[trigger] b.nodes[i]).slots == a.nodes[i].slots && b.nodes[i].alive
                == a.nodes[i].alive && b.nodes[i].parent == a.nodes[i].parent && (!b.nodes[i].alive
                ==> b.nodes[i].scope is None && !b.nodes[i].display_changed),
    ensures
        b.wf(),
        a.precedes(b),
{
    assert forall|i: int| 0 <= i < b.nodes.len() && (#[trigger] b.nodes[i]).alive implies (b.nodes[i].parent matches Some(
        p,
    ) ==> b.nodes[p as int].alive) by {
        assert(a.nodes[i].alive);
    }
    assert forall|i: int, j: int| 0 <= i < b.nodes.len() && 0 <= j < b.nodes[i].slots.len() implies (
    #[trigger] b.nodes[i].slots[j]).changed <= b.tick by {
        assert(a.nodes[i].slots[j].changed <= a.tick);
    }
    assert forall|i: int, j: int, k: int|
        0 <= i < b.nodes.len() && 0 <= j < k < b.nodes[i].slots.len() implies (#[trigger] b.nodes[i].slots[j]).kind
        != (#[trigger] b.nodes[i].slots[k]).kind by {
        assert(a.nodes[i].slots[j].kind != a.nodes[i].slots[k].kind);
    }
}

/// Taking a slot off a node keeps the invariant, and afterwards the node
/// has no slot of that kind.
pub proof fn lemma_removed<T>(w: StoreView<T>, id: NodeId, kind: TypeTag)
    requires
        w.wf(),
        w.has_slot(id, kind),
    ensures
        w.without_slot(id, kind).wf(),
        w.precedes(w.without_slot(id, kind)),
        !w.without_slot(id, kind).has_slot(id, kind),
{
    let after = w.without_slot(id, kind);
    let slots = w.nodes[id as int].slots;
    lemma_first_slot(slots, kind, 0);
    let i = first_slot(slots, kind, 0)->Some_0;
    let left = slots.remove(i);
    assert(after.nodes[id as int].slots == left);
    assert forall|k: int| 0 <= k < left.len() implies (#[trigger] left[k]).kind != kind by {
        if k < i {
            assert(left[k] == slots[k]);
            assert(slots[k].kind != slots[i].kind);
        } else {
            assert(left[k] == slots[k + 1]);
            assert(slots[i].kind != slots[k + 1].kind);
        }
    }
    lemma_first_slot(left, kind, 0);
    assert forall|n: int| 0 <= n < after.nodes.len() && (#[trigger] after.nodes[n]).alive implies (
    after.nodes[n].parent matches Some(p) ==> after.nodes[p as int].alive) by {
        assert(w.nodes[n].alive);
    }
    assert forall|n: int, j: int| 0 <= n < after.nodes.len() && 0 <= j < after.nodes[n].slots.len() implies (
    #[trigger] after.nodes[n].slots[j]).changed <= after.tick by {
        if n == id {
            if j < i {
                assert(left[j] == slots[j]);
                assert(slots[j].changed <= w.tick);
            } else {
                assert(left[j] == slots[j + 1]);
                assert(slots[j + 1].changed <= w.tick);
            }
        } else {
            assert(w.nodes[n].slots[j].changed <= w.tick);
        }
    }
    assert forall|n: int, j: int, k: int|
        0 <= n < after.nodes.len() && 0 <= j < k < after.nodes[n].slots.len() implies (
    #[trigger] after.nodes[n].slots[j]).kind != (#[trigger] after.nodes[n].slots[k]).kind by {
        if n == id {
            let x = if j < i { j } else { j + 1 };
            let y = if k < i { k } else { k + 1 };
            assert(left[j] == slots[x]);
            assert(left[k] == slots[y]);
            assert(slots[x].kind != slots[y].kind);
        } else {
            assert(w.nodes[n].slots[j].kind != w.nodes[n].slots[k].kind);
        }
    }
}

/// A write keeps the invariant, and afterwards the written slot is there
/// with the value and the new tick, while the slots of other kinds on the
/// node and all other nodes are as they were.
pub proof fn lemma_written<T>(w: StoreView<T>, id: NodeId, kind: TypeTag, value: T)
    requires
        w.wf(),
        w.alive(id),
        w.tick < u64::MAX,
    ensures
        w.written(id, kind, value).wf(),
        w.precedes(w.written(id, kind, value)),
        w.written(id, kind, value).has_slot(id, kind),
        w.written(id, kind, value).value(id, kind) == value,
        w.written(id, kind, value).last_write(Dependency { id, kind }) == Some((w.tick + 1) as u64),
        forall|other: TypeTag|
            other != kind ==> #[trigger] w.written(id, kind, value).has_slot(id, other) == w.has_slot(id, other),
        forall|other: TypeTag|
            other != kind && w.has_slot(id, other) ==> #[trigger] w.written(id, kind, value).slot(id, other)
                == w.slot(id, other),
{
    let after = w.written(id, kind, value);
    let slots = w.nodes[id as int].slots;
    let put = put_slot(slots, kind, value, (w.tick + 1) as u64);
    lemma_first_slot(slots, kind, 0);
    assert(after.nodes[id as int].slots == put);
    match first_slot(slots, kind, 0) {
        Some(i) => {
            lemma_first_slot_found(put, kind, 0, i);
        },
        None => {
            lemma_first_slot_found(put, kind, 0, slots.len() as int);
        },
    }
    assert forall|other: TypeTag| other != kind implies (#[trigger] after.has_slot(id, other)) == w.has_slot(
        id,
        other,
    ) && (w.has_slot(id, other) ==> after.slot(id, other) == w.slot(id, other)) by {
        lemma_first_slot(slots, other, 0);
        lemma_first_slot(put, other, 0);
        match first_slot(slots, other, 0) {
            Some(j) => {
                lemma_first_slot_found(put, other, 0, j);
            },
            None => {
                assert forall|k: int| 0 <= k < put.len() implies (#[trigger] put[k]).kind != other by {
                    if k < slots.len() {
                        assert(slots[k].kind != other);
                    }
                }
            },
        }
    }
    assert forall|other: TypeTag| other != kind && w.has_slot(id, other) implies #[trigger] after.slot(id, other)
        == w.slot(id, other) by {
        assert(after.has_slot(id, other) == w.has_slot(id, other));
    }
    assert forall|i: int| 0 <= i < after.nodes.len() && (#[trigger] after.nodes[i]).alive implies (
    after.nodes[i].parent matches Some(p) ==> after.nodes[p as int].alive) by {
        assert(w.nodes[i].alive);
    }
    assert forall|i: int, j: int| 0 <= i < after.nodes.len() && 0 <= j < after.nodes[i].slots.len() implies (
    #[trigger] after.nodes[i].slots[j]).changed <= after.tick by {
        if i == id {
            if j < slots.len() {
                assert(slots[j].changed <= w.tick);
            }
        } else {
            assert(w.nodes[i].slots[j].changed <= w.tick);
        }
    }
    assert forall|i: int, j: int, k: int|
        0 <= i < after.nodes.len() && 0 <= j < k < after.nodes[i].slots.len() implies (
    #[trigger] after.nodes[i].slots[j]).kind != (#[trigger] after.nodes[i].slots[k]).kind by {
        if i == id {
            if k < slots.len() {
                assert(slots[j].kind != slots[k].kind);
            } else {
                assert(slots[j].kind != kind);
            }
        } else {
            assert(w.nodes[i].slots[j].kind != w.nodes[i].slots[k].kind);
        }
    }
}

/// A node below `root` never has a smaller identifier than `root`.
pub proof fn lemma_subtree_above<T>(w: StoreView<T>, root: NodeId, i: NodeId)
    requires
        w.in_subtree(root, i),
    ensures
        root <= i,
    decreases i,
{
    if i != root {
        lemma_subtree_above(w, root, w.nodes[i as int].parent->Some_0);
    }
}

/// Below a node that is not alive, nothing is alive.
pub proof fn lemma_dead_subtree<T>(w: StoreView<T>, root: NodeId, i: NodeId)
    requires
        w.wf(),
        !w.alive(root),
        w.in_subtree(root, i),
    ensures
        !w.alive(i),
    decreases i,
{
    if i != root {
        lemma_dead_subtree(w, root, w.nodes[i as int].parent->Some_0);
    }
}

/// Membership in a subtree depends on the parents alone.
pub proof fn lemma_subtree_same_parents<T>(a: StoreView<T>, b: StoreView<T>, root: NodeId, i: NodeId)
    requires
        a.nodes.len() <= b.nodes.len(),
        forall|k: int| 0 <= k < a.nodes.len() ==> (#[trigger] b.nodes[k]).parent == a.nodes[k].parent,
        i < a.nodes.len() || i == root,
    ensures
        a.in_subtree(root, i) == b.in_subtree(root, i),
    decreases i,
{
    if i != root {
        if a.nodes[i as int].parent is Some && a.nodes[i as int].parent->Some_0 < i {
            lemma_subtree_same_parents(a, b, root, a.nodes[i as int].parent->Some_0);
        }
    }
}

/// Razing a subtree keeps the invariant, leaves the subtree absent, and
/// touches nothing outside it.
pub proof fn lemma_razed<T>(w: StoreView<T>, root: NodeId)
    requires
        w.wf(),
    ensures
        w.razed(root).wf(),
        w.razed(root).subtree_absent(root),
        w.precedes(w.razed(root)),
        forall|i: NodeId| !w.in_subtree(root, i) ==> w.razed(root).alive(i) == w.alive(i),
{
    let r = w.razed(root);
    assert forall|i: NodeId| #[trigger] r.in_subtree(root, i) implies !r.alive(i) by {
        if i < w.nodes.len() {
            lemma_subtree_same_parents(w, r, root, i);
        }
    }
    assert forall|i: int| 0 <= i < r.nodes.len() && (#[trigger] r.nodes[i]).alive implies (r.nodes[i].parent matches Some(
        p,
    ) ==> r.nodes[p as int].alive) by {
        assert(!w.in_subtree(root, i as NodeId));
        assert(w.nodes[i].alive);
    }
}

/// Razing below a node that is not alive changes nothing.
pub proof fn lemma_razed_dead_root<T>(w: StoreView<T>, root: NodeId)
    requires
        w.wf(),
        !w.alive(root),
    ensures
        w.razed(root) == w,
{
    assert forall|i: int| 0 <= i < w.nodes.len() implies w.razed(root).nodes[i] == w.nodes[i] by {
        if w.in_subtree(root, i as NodeId) {
            lemma_dead_subtree(w, root, i as NodeId);
            assert(w.nodes[i].slots =~= Seq::<Slot<T>>::empty());
        }
    }
    assert(w.razed(root).nodes =~= w.nodes);
}

/// A subtree that is absent stays absent, whatever is done to the store
/// later.
pub proof fn lemma_absent_stays_absent<T>(a: StoreView<T>, b: StoreView<T>, root: NodeId)
    requires
        a.wf(),
        b.wf(),
        a.precedes(b),
        root < a.nodes.len(),
        a.subtree_absent(root),
    ensures
        b.subtree_absent(root),
{
    assert(a.in_subtree(root, root));
    assert forall|i: NodeId| #[trigger] b.in_subtree(root, i) implies !b.alive(i) by {
        lemma_subtree_dead_root(a, b, root, i);
    }
}

/// Below a node that was razed, nothing of a later store is alive.
pub proof fn lemma_subtree_dead_root<T>(a: StoreView<T>, b: StoreView<T>, root: NodeId, i: NodeId)
    requires
        a.wf(),
        b.wf(),
        a.precedes(b),
        root < a.nodes.len(),
        !a.alive(root),
        b.in_subtree(root, i),
    ensures
        !b.alive(i),
    decreases i,
{
    assert(!b.nodes[root as int].alive);
    if i != root {
        lemma_subtree_dead_root(a, b, root, b.nodes[i as int].parent->Some_0);
    }
}

} // verus!
