//! The set of dependencies that one run of a reaction has read, together
//! with the tick against which later writes are compared.

use vstd::prelude::*;
use crate::store::Store;

verus! {

/// Identifies a node of the store.
pub type NodeId = usize;

/// Stands for the type of the value that a slot holds.
pub type TypeTag = u64;

/// One thing that a reaction has read: the slot of kind `kind` on node `id`.
#[derive(Clone, Copy, Debug, PartialEq, Eq, Structural)]
pub struct Dependency {
    pub id: NodeId,
    pub kind: TypeTag,
}

/// The dependencies recorded during one run of a reaction, and the baseline
/// tick of that run.
pub struct TrackingScope {
    deps: Vec<Dependency>,
    tick: u64,
}

impl TrackingScope {
    /// The recorded dependencies, as a set.
    pub closed spec fn deps(&self) -> Set<Dependency> {
        self.deps@.to_set()
    }

    /// The baseline tick.
    pub closed spec fn tick(&self) -> u64 {
        self.tick
    }

    /// An empty scope with baseline `tick`.
    pub fn new(tick: u64) -> (scope: Self)
        ensures
            scope.deps() == Set::<Dependency>::empty(),
            scope.tick() == tick,
    {
        let scope = TrackingScope { deps: Vec::new(), tick };
        assert(scope.deps@.to_set() =~= Set::<Dependency>::empty());
        scope
    }

    /// The baseline tick.
    pub fn baseline(&self) -> (tick: u64)
        ensures
            tick == self.tick(),
    {
        self.tick
    }

    /// Moves the baseline to `tick`; the dependencies stay.
    pub fn set_baseline(&mut self, tick: u64)
        ensures
            final(self).tick() == tick,
            final(self).deps() == old(self).deps(),
    {
        self.tick = tick;
    }

    /// Whether `dep` has been recorded.
    pub fn contains(&self, dep: Dependency) -> (found: bool)
        ensures
            found == self.deps().contains(dep),
    {
        let mut i: usize = 0;
        while i < self.deps.len()
            invariant
                i <= self.deps.len(),
                forall|k: int| 0 <= k < i ==> self.deps@[k] != dep,
            decreases self.deps.len() - i,
        {
            if self.deps[i] == dep {
                return true;
            }
            i += 1;
        }
        false
    }

    /// Records `dep`. Recording it a second time changes nothing.
    pub fn record(&mut self, dep: Dependency)
        ensures
            final(self).deps() == old(self).deps().insert(dep),
            final(self).tick() == old(self).tick(),
    {
        if !self.contains(dep) {
            self.deps.push(dep);
            assert(self.deps@.to_set() =~= old(self).deps@.to_set().insert(dep)) by {
                assert forall|d: Dependency| self.deps@.contains(d) <==> (old(self).deps@.contains(d) || d == dep) by {
                    if old(self).deps@.contains(d) {
                        let k = choose|k: int| 0 <= k < old(self).deps@.len() && old(self).deps@[k] == d;
                        assert(self.deps@[k] == d);
                    }
                    if d == dep {
                        assert(self.deps@[self.deps@.len() - 1] == d);
                    }
                }
            }
        } else {
            assert(old(self).deps().insert(dep) =~= old(self).deps());
        }
    }

    /// Records the slot of kind `kind` on node `id`.
    pub fn track_component(&mut self, id: NodeId, kind: TypeTag)
        ensures
            final(self).deps() == old(self).deps().insert(Dependency { id, kind }),
            final(self).tick() == old(self).tick(),
    {
        self.record(Dependency { id, kind });
    }

    /// Whether the scope is stale against `world`: whether one of its
    /// dependencies was last written at a tick strictly greater than the
    /// baseline.
    pub fn is_stale<T>(&self, world: &Store<T>) -> (stale: bool)
        ensures
            stale == world@.stale(*self),
    {
        let mut i: usize = 0;
        while i < self.deps.len()
            invariant
                i <= self.deps.len(),
                forall|k: int| 0 <= k < i ==> !world@.changed_since(#[trigger] self.deps@[k], self.tick),
            decreases self.deps.len() - i,
        {
            if world.changed_since(self.deps[i], self.tick) {
                assert(self.deps().contains(self.deps@[i as int]));
                return true;
            }
            i += 1;
        }
        assert forall|dep: Dependency| #[trigger] self.deps().contains(dep) implies !world@.changed_since(
            dep,
            self.tick(),
        ) by {
            let k = choose|k: int| 0 <= k < self.deps@.len() && self.deps@[k] == dep;
            assert(!world@.changed_since(self.deps@[k], self.tick));
        }
        false
    }

    /// Whether nothing has been recorded.
    pub fn is_empty(&self) -> (empty: bool)
        ensures
            empty == (self.deps() == Set::<Dependency>::empty()),
    {
        proof {
            if self.deps@.len() == 0 {
                assert(self.deps@.to_set() =~= Set::<Dependency>::empty());
            } else {
                assert(self.deps@.contains(self.deps@[0]));
                assert(self.deps@.to_set().contains(self.deps@[0]));
            }
        }
        self.deps.len() == 0
    }

    /// Adds every dependency of `other` to this scope.
    pub fn merge(&mut self, other: &TrackingScope)
        ensures
            final(self).deps() == old(self).deps().union(other.deps()),
            final(self).tick() == old(self).tick(),
    {
        let mut i: usize = 0;
        while i < other.deps.len()
            invariant
                i <= other.deps@.len(),
                self.tick() == old(self).tick(),
                self.deps() == old(self).deps().union(other.deps@.subrange(0, i as int).to_set()),
            decreases other.deps@.len() - i,
        {
            self.record(other.deps[i]);
            proof {
                let head = other.deps@.subrange(0, i as int);
                let next = other.deps@.subrange(0, i + 1);
                assert(next =~= head.push(other.deps@[i as int]));
                assert(next.to_set() =~= head.to_set().insert(other.deps@[i as int])) by {
                    assert forall|d: Dependency| next.contains(d) <==> (head.contains(d) || d == other.deps@[i as int]) by {
                        if head.contains(d) {
                            let k = choose|k: int| 0 <= k < head.len() && head[k] == d;
                            assert(next[k] == d);
                        }
                        if d == other.deps@[i as int] {
                            assert(next[i as int] == d);
                        }
                    }
                }
                assert(self.deps() =~= old(self).deps().union(next.to_set()));
            }
            i += 1;
        }
        proof {
            assert(other.deps@.subrange(0, i as int) =~= other.deps@);
        }
    }

    /// Replaces the contents of this scope by those of `other`, which is
    /// left empty. Nothing of the old contents is kept.
    pub fn take_deps(&mut self, other: &mut TrackingScope)
        ensures
            final(self).deps() == old(other).deps(),
            final(self).tick() == old(self).tick(),
            final(other).deps() == Set::<Dependency>::empty(),
            final(other).tick() == old(other).tick(),
    {
        let mut fresh: Vec<Dependency> = Vec::new();
        std::mem::swap(&mut fresh, &mut other.deps);
        self.deps = fresh;
        assert(other.deps@.to_set() =~= Set::<Dependency>::empty());
    }
}

} // verus!
