//! The engine as one value: the store, the reactions that the driver looks
//! after, the registered callbacks and the invocations that wait. `tick` is
//! the one call that the host makes per frame.

use vstd::prelude::*;
use crate::callback::{applied, swept, Callback, CallbackRegistry, Commands, Procedure, Registered, RunCallback};
use crate::error::ReactorError;
use crate::reaction::{pass, registered, Entry, Reaction, ReactionTable};
use crate::tracking_scope::NodeId;
use crate::store::{Store, StoreView};

verus! {

/// The engine.
pub struct Reactor<T, A, R, P> {
    /// The store.
    pub world: Store<T>,
    /// The reactions that the driver looks after.
    pub reactions: ReactionTable<R>,
    /// The registered callbacks.
    pub callbacks: CallbackRegistry<P>,
    /// The callback invocations that wait for the next tick.
    pub deferred: Commands<A>,
}

/// What one tick does, in this order: the invocations that wait are carried
/// out, oldest first, with `results`; then the driver makes one pass over
/// the reactions, from the store that the callbacks have left; then the
/// cells and the procedures of nodes that are no longer alive are dropped.
pub open spec fn ticked<T, A, R: Reaction<T>, P: Procedure<T, A>>(
    pre: Reactor<T, A, R, P>,
    post: Reactor<T, A, R, P>,
    results: Seq<Result<(), ReactorError>>,
) -> bool {
    exists|
        tables: Seq<Seq<Option<Registered<P>>>>,
        called: Seq<StoreView<T>>,
        entries: Seq<Entry<R>>,
        reacted: Seq<StoreView<T>>,
    |
        {
            &&& #[trigger] applied(pre.deferred.pending(), tables, called, results)
            &&& tables[0] == pre.callbacks.slots()
            &&& called[0] == pre.world@
            &&& #[trigger] pass(pre.reactions.entries(), entries, reacted)
            &&& reacted[0] == called[called.len() - 1]
            &&& post.world@ == reacted[reacted.len() - 1]
            &&& post.reactions.entries() == entries.filter(|e: Entry<R>| post.world@.alive(e.owner))
            &&& post.callbacks.slots() == swept(tables[tables.len() - 1], post.world@)
            &&& post.deferred.pending().len() == 0
        }
}

impl<T, A, R: Reaction<T>, P: Procedure<T, A>> Reactor<T, A, R, P> {
    /// The invariant of the engine.
    pub open spec fn wf(&self) -> bool {
        &&& self.world.wf()
        &&& self.reactions.wf()
        &&& forall|i: int|
            0 <= i < self.reactions.entries().len() ==> (#[trigger] self.reactions.entries()[i]).cell.0.valid()
        &&& self.callbacks.all_valid::<T, A>()
    }

    /// An engine with an empty store, at tick 0.
    pub fn new() -> (reactor: Self)
        ensures
            reactor.wf(),
            reactor.world@.nodes.len() == 0,
            reactor.world@.tick == 0,
            reactor.reactions.entries().len() == 0,
            reactor.callbacks.slots().len() == 0,
            reactor.deferred.pending().len() == 0,
    {
        Reactor {
            world: Store::new(),
            reactions: ReactionTable::new(),
            callbacks: CallbackRegistry::new(),
            deferred: Commands::new(),
        }
    }

    /// Registers `reaction` for `owner` with its first run, as
    /// `ReactionTable::add_reaction` does.
    pub fn add_reaction(&mut self, owner: NodeId, reaction: R) -> (res: Result<(), ReactorError>)
        requires
            old(self).wf(),
            reaction.valid(),
        ensures
            final(self).wf(),
            final(self).callbacks == old(self).callbacks,
            final(self).deferred == old(self).deferred,
            if old(self).world@.alive(owner) {
                registered(
                    old(self).reactions.entries(),
                    final(self).reactions.entries(),
                    reaction,
                    owner,
                    old(self).world@,
                    final(self).world@,
                    res,
                )
            } else {
                &&& res == Err::<(), ReactorError>(ReactorError::MissingDependency)
                &&& final(self).reactions.entries() == old(self).reactions.entries()
                &&& final(self).world@ == old(self).world@
            },
    {
        self.reactions.add_reaction(&mut self.world, owner, reaction)
    }

    /// Invokes a callback at once, as `CallbackRegistry::run_callback`
    /// does.
    pub fn run_callback(&mut self, callback: Callback, props: A) -> (res: Result<(), ReactorError>)
        requires
            old(self).wf(),
        ensures
            final(self).wf(),
            final(self).reactions == old(self).reactions,
            final(self).deferred == old(self).deferred,
            crate::callback::invoked(
                old(self).callbacks.slots(),
                old(self).world@,
                final(self).callbacks.slots(),
                final(self).world@,
                callback,
                props,
                res,
            ),
    {
        self.callbacks.run_callback(&mut self.world, callback, props)
    }

    /// Leaves the invocation of a callback for the next tick.
    pub fn defer_callback(&mut self, callback: Callback, props: A)
        requires
            old(self).wf(),
        ensures
            final(self).wf(),
            final(self).world == old(self).world,
            final(self).reactions == old(self).reactions,
            final(self).callbacks == old(self).callbacks,
            final(self).deferred.pending() == old(self).deferred.pending().push((callback, props)),
    {
        self.deferred.run_callback(callback, props);
    }

    /// One tick of the engine. The host calls it once per frame.
    pub fn tick(&mut self) -> (results: Vec<Result<(), ReactorError>>)
        requires
            old(self).wf(),
        ensures
            final(self).wf(),
            ticked(*old(self), *final(self), results@),
    {
        let ghost pre = *self;
        let results = self.callbacks.apply(&mut self.world, &mut self.deferred);
        let ghost (tables, called) = choose|tables: Seq<Seq<Option<Registered<P>>>>, called: Seq<StoreView<T>>| #[trigger]
            applied(pre.deferred.pending(), tables, called, results@) && tables[0] == pre.callbacks.slots()
                && called[0] == pre.world@ && tables[tables.len() - 1] == self.callbacks.slots() && called[
                called.len() - 1] == self.world@;
        self.reactions.run_reactions(&mut self.world);
        let ghost entries = self.reactions.entries();
        let ghost reacted = choose|ws: Seq<StoreView<T>>| #[trigger]
            pass(pre.reactions.entries(), entries, ws) && ws[0] == called[called.len() - 1] && ws[ws.len() - 1]
                == self.world@;
        self.reactions.prune(&self.world);
        let ghost survivors = self.reactions.entries();
        self.callbacks.sweep(&self.world);
        proof {
            assert forall|i: int| 0 <= i < survivors.len() implies (#[trigger] survivors[i]).cell.0.valid() by {
                crate::reaction::lemma_filter_keeps_distinct(entries, |e: Entry<R>| self.world@.alive(e.owner));
                let k = choose|k: int| 0 <= k < entries.len() && entries[k] == survivors[i];
                assert(entries[k].cell.0.valid());
            }
            assert forall|i: int| 0 <= i < self.callbacks.slots().len() implies (
            #[trigger] self.callbacks.slots()[i] matches Some(reg) ==> reg.procedure.valid()) by {
                assert(self.callbacks.slots()[i] == swept(tables[tables.len() - 1], self.world@)[i]);
            }
            assert(applied(pre.deferred.pending(), tables, called, results@) && pass(
                pre.reactions.entries(),
                entries,
                reacted,
            ));
        }
        results
    }
}

} // verus!
