//! Callbacks: procedures that a node owns and that are invoked through a
//! handle, at once or from a queue. A handle carries the tag of its input
//! type; a handle whose tag does not fit, or whose owner is gone, is turned
//! down before anything runs.

use vstd::prelude::*;
use crate::error::ReactorError;
use crate::tracking_scope::{NodeId, TypeTag};
use crate::store::{Store, StoreView};

verus! {

/// A handle to a registered procedure. `tag` stands for the type of the
/// input that the holder will pass.
#[derive(Clone, Copy, Debug, PartialEq, Eq, Structural)]
pub struct Callback {
    pub id: usize,
    pub tag: TypeTag,
}

/// A handle whose input type has been forgotten; `downcast` gets the typed
/// handle back.
#[derive(Clone, Copy, Debug, PartialEq, Eq, Structural)]
pub struct AnyCallback {
    pub id: usize,
    pub tag: TypeTag,
}

impl Callback {
    /// The tag of the input type.
    pub fn type_id(&self) -> (tag: TypeTag)
        ensures
            tag == self.tag,
    {
        self.tag
    }

    /// Forgets the input type.
    pub fn erase(&self) -> (any: AnyCallback)
        ensures
            any == (AnyCallback { id: self.id, tag: self.tag }),
    {
        AnyCallback { id: self.id, tag: self.tag }
    }
}

impl AnyCallback {
    /// The tag of the input type.
    pub fn type_id(&self) -> (tag: TypeTag)
        ensures
            tag == self.tag,
    {
        self.tag
    }

    /// Gets the typed handle back. Fails with `DowncastMismatch` when
    /// `tag` is not the tag under which the handle was made.
    pub fn downcast(&self, tag: TypeTag) -> (res: Result<Callback, ReactorError>)
        ensures
            res == if tag == self.tag {
                Ok::<Callback, ReactorError>(Callback { id: self.id, tag })
            } else {
                Err::<Callback, ReactorError>(ReactorError::DowncastMismatch)
            },
    {
        if tag == self.tag {
            Ok(Callback { id: self.id, tag })
        } else {
            Err(ReactorError::DowncastMismatch)
        }
    }
}

/// A procedure that can be registered as a callback: it takes an input and
/// may edit the store.
pub trait Procedure<T, A>: Sized {
    /// The invariant of the procedure. A procedure that states none has
    /// none.
    open spec fn valid(&self) -> bool {
        true
    }

    /// A run with input `props` may turn `pre` into `post` and the store
    /// `before` into `after`. A procedure that states nothing may do
    /// anything.
    open spec fn ran(pre: Self, post: Self, before: StoreView<T>, after: StoreView<T>, props: A) -> bool {
        true
    }

    /// Runs the procedure.
    fn run(&mut self, world: &mut Store<T>, props: A)
        requires
            old(self).valid(),
            old(world).wf(),
        ensures
            final(self).valid(),
            final(world).wf(),
            Self::ran(*old(self), *final(self), old(world)@, final(world)@, props),
    ;
}

/// A registered procedure, with the node that owns it and the tag of its
/// input type.
pub struct Registered<P> {
    pub owner: NodeId,
    pub tag: TypeTag,
    pub procedure: P,
}

/// The table of registered procedures. A handle's `id` is the place of its
/// procedure in the table; a place is never used twice.
pub struct CallbackRegistry<P> {
    slots: Vec<Option<Registered<P>>>,
}

/// Why the procedure behind `callback` cannot be invoked, if it cannot: it
/// is not registered, its owner is not alive, or the handle's tag is not
/// the one it was registered with.
pub open spec fn refusal<T, P>(slots: Seq<Option<Registered<P>>>, world: StoreView<T>, callback: Callback) -> Option<
    ReactorError,
> {
    if !(callback.id < slots.len() && slots[callback.id as int] is Some) {
        Some(ReactorError::MissingDependency)
    } else if !world.alive(slots[callback.id as int]->Some_0.owner) {
        Some(ReactorError::MissingDependency)
    } else if slots[callback.id as int]->Some_0.tag != callback.tag {
        Some(ReactorError::DowncastMismatch)
    } else {
        None
    }
}

/// What invoking `callback` with `props` does. A handle that is refused
/// changes nothing: neither the table nor the store, and no procedure runs.
/// Else the procedure runs once, on the store as it is.
pub open spec fn invoked<T, A, P: Procedure<T, A>>(
    slots: Seq<Option<Registered<P>>>,
    world: StoreView<T>,
    slots_after: Seq<Option<Registered<P>>>,
    world_after: StoreView<T>,
    callback: Callback,
    props: A,
    res: Result<(), ReactorError>,
) -> bool {
    match refusal(slots, world, callback) {
        Some(e) => {
            &&& res == Err::<(), ReactorError>(e)
            &&& slots_after == slots
            &&& world_after == world
        },
        None => {
            let reg = slots[callback.id as int]->Some_0;
            &&& res is Ok
            &&& slots_after.len() == slots.len()
            &&& forall|i: int| 0 <= i < slots.len() && i != callback.id ==> #[trigger] slots_after[i] == slots[i]
            &&& slots_after[callback.id as int] matches Some(after)
            &&& after.owner == reg.owner
            &&& after.tag == reg.tag
            &&& P::ran(reg.procedure, after.procedure, world, world_after, props)
        },
    }
}

/// The handles of the procedures among the first `n` places that `owner`
/// owns, in the order in which they were registered.
pub open spec fn owned_upto<P>(slots: Seq<Option<Registered<P>>>, owner: NodeId, n: int) -> Seq<Callback>
    decreases n,
{
    if n <= 0 || n > slots.len() {
        Seq::empty()
    } else if slots[n - 1] is Some && slots[n - 1]->Some_0.owner == owner {
        owned_upto(slots, owner, n - 1).push(Callback { id: (n - 1) as usize, tag: slots[n - 1]->Some_0.tag })
    } else {
        owned_upto(slots, owner, n - 1)
    }
}

/// The list of what an owner owns among the first `n` places depends on
/// those places alone.
pub proof fn lemma_owned_prefix<P>(
    a: Seq<Option<Registered<P>>>,
    b: Seq<Option<Registered<P>>>,
    owner: NodeId,
    n: int,
)
    requires
        0 <= n <= a.len() <= b.len(),
        forall|i: int| 0 <= i < n ==> a[i] == b[i],
    ensures
        owned_upto(a, owner, n) == owned_upto(b, owner, n),
    decreases n,
{
    if n > 0 {
        lemma_owned_prefix(a, b, owner, n - 1);
    }
}

/// The table after every procedure whose owner is not alive in `world` has
/// been unregistered.
pub open spec fn swept<T, P>(slots: Seq<Option<Registered<P>>>, world: StoreView<T>) -> Seq<Option<Registered<P>>> {
    Seq::new(
        slots.len(),
        |i: int|
            if slots[i] is Some && world.alive(slots[i]->Some_0.owner) {
                slots[i]
            } else {
                None
            },
    )
}

/// How many procedures among the first `n` places have an owner that is not
/// alive in `world`.
pub open spec fn orphans_upto<T, P>(slots: Seq<Option<Registered<P>>>, world: StoreView<T>, n: int) -> nat
    decreases n,
{
    if n <= 0 || n > slots.len() {
        0
    } else if slots[n - 1] is Some && !world.alive(slots[n - 1]->Some_0.owner) {
        orphans_upto(slots, world, n - 1) + 1
    } else {
        orphans_upto(slots, world, n - 1)
    }
}

/// A cell as the target of a callback: invoking the callback writes the
/// input to the cell. Where the write fails nothing changes.
impl<T> Procedure<T, T> for crate::mutable::Mutable {
    open spec fn ran(pre: Self, post: Self, before: StoreView<T>, after: StoreView<T>, props: T) -> bool {
        &&& post == pre
        &&& after == if before.has_slot(pre.cell, pre.kind) && before.tick < u64::MAX {
            before.written(pre.cell, pre.kind, props)
        } else {
            before
        }
    }

    fn run(&mut self, world: &mut Store<T>, props: T) {
        let _ = self.set(world, props);
    }
}

impl<P> CallbackRegistry<P> {
    /// The table, place by place; `None` where a procedure was removed.
    pub closed spec fn slots(&self) -> Seq<Option<Registered<P>>> {
        self.slots@
    }

    /// Every registered procedure is valid.
    pub open spec fn all_valid<T, A>(&self) -> bool where P: Procedure<T, A> {
        forall|i: int|
            0 <= i < self.slots().len() ==> (#[trigger] self.slots()[i] matches Some(reg)
                ==> reg.procedure.valid())
    }

    /// An empty table.
    pub fn new() -> (registry: Self)
        ensures
            registry.slots().len() == 0,
    {
        CallbackRegistry { slots: Vec::new() }
    }

    /// Registers `procedure` for `owner` and returns its handle. Fails with
    /// `MissingDependency`, and registers nothing, when `owner` is not
    /// alive.
    pub fn create_callback<T>(&mut self, world: &Store<T>, owner: NodeId, tag: TypeTag, procedure: P) -> (res:
        Result<Callback, ReactorError>)
        ensures
            match res {
                Ok(callback) => {
                    &&& world@.alive(owner)
                    &&& callback.id == old(self).slots().len()
                    &&& callback.tag == tag
                    &&& final(self).slots() == old(self).slots().push(Some(Registered { owner, tag, procedure }))
                    &&& owned_upto(final(self).slots(), owner, final(self).slots().len() as int) == owned_upto(
                        old(self).slots(),
                        owner,
                        old(self).slots().len() as int,
                    ).push(callback)
                },
                Err(e) => {
                    &&& !world@.alive(owner)
                    &&& e == ReactorError::MissingDependency
                    &&& final(self).slots() == old(self).slots()
                },
            },
    {
        if !world.is_alive(owner) {
            return Err(ReactorError::MissingDependency);
        }
        let id = self.slots.len();
        self.slots.push(Some(Registered { owner, tag, procedure }));
        proof {
            lemma_owned_prefix(old(self).slots(), self.slots(), owner, id as int);
        }
        Ok(Callback { id, tag })
    }

    /// Whether a procedure stands at the place that `callback` names.
    pub fn is_registered(&self, callback: Callback) -> (found: bool)
        ensures
            found == (callback.id < self.slots().len() && self.slots()[callback.id as int] is Some),
    {
        callback.id < self.slots.len() && self.slots[callback.id].is_some()
    }

    /// The handles of the procedures that `owner` owns, in the order in
    /// which they were registered.
    pub fn owned_by(&self, owner: NodeId) -> (list: Vec<Callback>)
        ensures
            list@ == owned_upto(self.slots(), owner, self.slots().len() as int),
    {
        let mut list: Vec<Callback> = Vec::new();
        let mut i: usize = 0;
        while i < self.slots.len()
            invariant
                i <= self.slots@.len(),
                list@ == owned_upto(self.slots@, owner, i as int),
            decreases self.slots@.len() - i,
        {
            match &self.slots[i] {
                Some(reg) => {
                    if reg.owner == owner {
                        list.push(Callback { id: i, tag: reg.tag });
                    }
                },
                None => {},
            }
            i += 1;
        }
        list
    }

    /// Why `callback` cannot be invoked in `world`, if it cannot.
    pub fn check<T>(&self, world: &Store<T>, callback: Callback) -> (why: Option<ReactorError>)
        ensures
            why == refusal(self.slots(), world@, callback),
    {
        if callback.id >= self.slots.len() {
            return Some(ReactorError::MissingDependency);
        }
        match &self.slots[callback.id] {
            None => Some(ReactorError::MissingDependency),
            Some(reg) => {
                if !world.is_alive(reg.owner) {
                    Some(ReactorError::MissingDependency)
                } else if reg.tag != callback.tag {
                    Some(ReactorError::DowncastMismatch)
                } else {
                    None
                }
            },
        }
    }

    /// Invoke a callback with the given props, at once. Fails with
    /// `MissingDependency` when no procedure is registered under the handle
    /// or the owner of the procedure is not alive, and with
    /// `DowncastMismatch` when the handle's tag is not the registered one;
    /// nothing runs then.
    pub fn run_callback<T, A>(&mut self, world: &mut Store<T>, callback: Callback, props: A) -> (res: Result<
        (),
        ReactorError,
    >) where P: Procedure<T, A>
        requires
            old(world).wf(),
            old(self).all_valid::<T, A>(),
        ensures
            final(world).wf(),
            final(self).all_valid::<T, A>(),
            invoked(old(self).slots(), old(world)@, final(self).slots(), final(world)@, callback, props, res),
    {
        match self.check(world, callback) {
            Some(e) => Err(e),
            None => {
                let mut taken: Option<Registered<P>> = None;
                std::mem::swap(&mut self.slots[callback.id], &mut taken);
                match taken {
                    Some(reg) => {
                        let mut reg = reg;
                        assert(old(self).slots()[callback.id as int] == Some(reg));
                        reg.procedure.run(world, props);
                        self.slots[callback.id] = Some(reg);
                        assert forall|i: int| 0 <= i < self.slots().len() implies (
                        #[trigger] self.slots()[i] matches Some(r) ==> r.procedure.valid()) by {
                            if i != callback.id {
                                assert(self.slots()[i] == old(self).slots()[i]);
                            }
                        }
                        Ok(())
                    },
                    None => Err(ReactorError::MissingDependency),
                }
            },
        }
    }

    /// Unregisters the procedure behind `callback` and hands it back. Fails
    /// with `MissingDependency`, and changes nothing, when none is
    /// registered there.
    pub fn remove(&mut self, callback: Callback) -> (res: Result<P, ReactorError>)
        ensures
            match res {
                Ok(p) => {
                    &&& callback.id < old(self).slots().len()
                    &&& old(self).slots()[callback.id as int] matches Some(reg)
                    &&& p == reg.procedure
                    &&& final(self).slots() == old(self).slots().update(callback.id as int, None)
                },
                Err(e) => {
                    &&& !(callback.id < old(self).slots().len() && old(self).slots()[callback.id as int] is Some)
                    &&& e == ReactorError::MissingDependency
                    &&& final(self).slots() == old(self).slots()
                },
            },
    {
        if callback.id >= self.slots.len() {
            return Err(ReactorError::MissingDependency);
        }
        let mut taken: Option<Registered<P>> = None;
        std::mem::swap(&mut self.slots[callback.id], &mut taken);
        match taken {
            Some(reg) => Ok(reg.procedure),
            None => {
                assert(self.slots() =~= old(self).slots());
                Err(ReactorError::MissingDependency)
            },
        }
    }

    /// Unregisters every procedure whose owner is not alive in `world`:
    /// what a razed node owned does not stay behind in the table. Returns
    /// how many were unregistered.
    pub fn sweep<T>(&mut self, world: &Store<T>) -> (dropped: usize)
        ensures
            final(self).slots() == swept(old(self).slots(), world@),
            dropped == orphans_upto(old(self).slots(), world@, old(self).slots().len() as int),
    {
        let mut dropped: usize = 0;
        let mut i: usize = 0;
        while i < self.slots.len()
            invariant
                i <= self.slots@.len(),
                dropped <= i,
                dropped == orphans_upto(old(self).slots@, world@, i as int),
                self.slots@.len() == old(self).slots@.len(),
                forall|k: int|
                    0 <= k < i ==> #[trigger] self.slots@[k] == if old(self).slots@[k] matches Some(reg)
                        && world@.alive(reg.owner) {
                        old(self).slots@[k]
                    } else {
                        None
                    },
                forall|k: int| i <= k < self.slots@.len() ==> #[trigger] self.slots@[k] == old(self).slots@[k],
            decreases self.slots@.len() - i,
        {
            let gone = match &self.slots[i] {
                Some(reg) => !world.is_alive(reg.owner),
                None => false,
            };
            if gone {
                self.slots[i] = None;
                dropped += 1;
            }
            i += 1;
        }
        assert(self.slots@ =~= swept(old(self).slots@, world@));
        dropped
    }
}

/// Invoking callbacks.
pub trait RunCallback<A> {
    /// The invocations that wait to be carried out, oldest first.
    spec fn pending(&self) -> Seq<(Callback, A)>;

    /// Invoke a callback with the given props.
    fn run_callback(&mut self, callback: Callback, props: A)
        ensures
            final(self).pending() == old(self).pending().push((callback, props)),
    ;
}

/// A queue of invocations to be carried out later, in the order in which
/// they were asked for.
pub struct Commands<A> {
    queue: Vec<(Callback, A)>,
}

impl<A> Commands<A> {
    /// An empty queue.
    pub fn new() -> (commands: Self)
        ensures
            commands.pending().len() == 0,
    {
        Commands { queue: Vec::new() }
    }

    /// How many invocations wait.
    pub fn len(&self) -> (n: usize)
        ensures
            n == self.pending().len(),
    {
        self.queue.len()
    }
}

impl<A> RunCallback<A> for Commands<A> {
    closed spec fn pending(&self) -> Seq<(Callback, A)> {
        self.queue@
    }

    /// Puts the invocation at the end of the queue; nothing runs yet.
    fn run_callback(&mut self, callback: Callback, props: A) {
        self.queue.push((callback, props));
    }
}

/// Step `i` of carrying out a queue: invocation `i` takes the table and the
/// store from their state `i` to their state `i + 1`.
pub open spec fn apply_step<T, A, P: Procedure<T, A>>(
    queue: Seq<(Callback, A)>,
    tables: Seq<Seq<Option<Registered<P>>>>,
    ws: Seq<StoreView<T>>,
    results: Seq<Result<(), ReactorError>>,
    i: int,
) -> bool {
    invoked(tables[i], ws[i], tables[i + 1], ws[i + 1], queue[i].0, queue[i].1, results[i])
}

/// The queue was carried out from its first invocation to its last.
pub open spec fn applied<T, A, P: Procedure<T, A>>(
    queue: Seq<(Callback, A)>,
    tables: Seq<Seq<Option<Registered<P>>>>,
    ws: Seq<StoreView<T>>,
    results: Seq<Result<(), ReactorError>>,
) -> bool {
    &&& tables.len() == queue.len() + 1
    &&& ws.len() == queue.len() + 1
    &&& results.len() == queue.len()
    &&& forall|i: int| 0 <= i < queue.len() ==> #[trigger] apply_step(queue, tables, ws, results, i)
}

impl<P> CallbackRegistry<P> {
    /// Carries out the invocations that wait in `commands`, oldest first,
    /// and leaves the queue empty. Each is judged when its turn comes, as
    /// `run_callback` judges it; the results come back in the same order.
    pub fn apply<T, A>(&mut self, world: &mut Store<T>, commands: &mut Commands<A>) -> (results: Vec<
        Result<(), ReactorError>,
    >) where P: Procedure<T, A>
        requires
            old(world).wf(),
            old(self).all_valid::<T, A>(),
        ensures
            final(world).wf(),
            final(self).all_valid::<T, A>(),
            final(commands).pending().len() == 0,
            exists|tables: Seq<Seq<Option<Registered<P>>>>, ws: Seq<StoreView<T>>| #[trigger]
                applied(old(commands).pending(), tables, ws, results@) && tables[0] == old(self).slots() && ws[0]
                    == old(world)@ && tables[tables.len() - 1] == final(self).slots() && ws[ws.len() - 1]
                    == final(world)@,
    {
        let ghost queue = commands.queue@;
        let ghost mut tables: Seq<Seq<Option<Registered<P>>>> = seq![self.slots@];
        let ghost mut ws: Seq<StoreView<T>> = seq![world@];
        let ghost mut i: int = 0;
        let mut results: Vec<Result<(), ReactorError>> = Vec::new();
        proof {
            assert(commands.queue@ =~= queue.subrange(0, queue.len() as int));
        }
        while commands.queue.len() > 0
            invariant
                0 <= i <= queue.len(),
                commands.queue@ == queue.subrange(i, queue.len() as int),
                world.wf(),
                self.all_valid::<T, A>(),
                tables.len() == i + 1,
                ws.len() == i + 1,
                results@.len() == i,
                tables[0] == old(self).slots(),
                ws[0] == old(world)@,
                tables[i] == self.slots(),
                ws[i] == world@,
                forall|k: int| 0 <= k < i ==> #[trigger] apply_step(queue, tables, ws, results@, k),
            decreases commands.queue@.len(),
        {
            let (callback, props) = commands.queue.remove(0);
            assert(queue[i] == (callback, props));
            let ghost done_tables = tables;
            let ghost done_ws = ws;
            let ghost done_results = results@;
            let res = self.run_callback(world, callback, props);
            results.push(res);
            proof {
                tables = tables.push(self.slots());
                ws = ws.push(world@);
                assert forall|k: int| 0 <= k < i + 1 implies #[trigger] apply_step(queue, tables, ws, results@, k) by {
                    if k < i {
                        assert(apply_step(queue, done_tables, done_ws, done_results, k));
                    }
                }
                assert(commands.queue@ =~= queue.subrange(i + 1, queue.len() as int));
                i = i + 1;
            }
        }
        proof {
            assert(applied(old(commands).pending(), tables, ws, results@));
        }
        results
    }
}

/// A callback whose owner has been razed is never invoked: the handle is
/// refused with `MissingDependency`, the store and the table stay as they
/// are, and no procedure runs.
pub proof fn lemma_callback_of_razed_owner_fails<T, A, P: Procedure<T, A>>(
    slots: Seq<Option<Registered<P>>>,
    world: StoreView<T>,
    slots_after: Seq<Option<Registered<P>>>,
    world_after: StoreView<T>,
    callback: Callback,
    props: A,
    res: Result<(), ReactorError>,
)
    requires
        callback.id < slots.len(),
        slots[callback.id as int] matches Some(reg) && !world.alive(reg.owner),
        invoked(slots, world, slots_after, world_after, callback, props, res),
    ensures
        res == Err::<(), ReactorError>(ReactorError::MissingDependency),
        slots_after == slots,
        world_after == world,
{
}

} // verus!
