use std::cell::RefCell;
use std::rc::Rc;

use bevy_reactor::context::Ecx;
use bevy_reactor::error::ReactorError;
use bevy_reactor::mutable::{create_mutable, Mutable};
use bevy_reactor::reaction::{EffectFn, EffectReaction, Reaction, ReactionCell, ReactionTable, ReactionTarget};
use bevy_reactor::tracking_scope::TrackingScope;
use bevy_reactor::ui_builder::UiBuilder;
use bevy_reactor::store::Store;

const INT: u64 = 1;

type Log = Rc<RefCell<Vec<String>>>;

/// Copies `from` plus one into `to`, if it has a target, and writes down
/// each run.
struct Copy {
    name: &'static str,
    from: Mutable,
    to: Option<Mutable>,
    log: Log,
}

impl EffectFn<i32> for Copy {
    fn run(&mut self, cx: &mut Ecx<i32>) {
        cx.track(self.from.dependency());
        let value = *self.from.read(&cx.world).unwrap();
        self.log.borrow_mut().push(format!("{} saw {}", self.name, value));
        if let Some(to) = self.to {
            to.set(&mut cx.world, value + 1).unwrap();
        }
    }
}

/// A reaction that razes its owner and then fails.
struct Quit;

impl Reaction<i32> for Quit {
    fn react(&mut self, owner: usize, world: &mut Store<i32>, _tracking: &mut TrackingScope) -> Result<(), ReactorError> {
        world.despawn_recursive(owner);
        Err(ReactorError::InvalidState)
    }
}

fn log() -> Log {
    Rc::new(RefCell::new(Vec::new()))
}

fn taken(log: &Log) -> Vec<String> {
    let out = log.borrow().clone();
    log.borrow_mut().clear();
    out
}

fn effect(
    world: Store<i32>,
    parent: usize,
    table: &mut ReactionTable<EffectReaction<Copy>>,
    copy: Copy,
) -> (Store<i32>, usize) {
    let mut builder = UiBuilder::new(world, parent);
    let owner = builder.create_effect(table, copy).unwrap();
    (builder.into_world(), owner)
}

#[test]
fn effect_runs_once_when_created() {
    let log = log();
    let mut world: Store<i32> = Store::new();
    let root = world.spawn_empty();
    let a = create_mutable(&mut world, root, INT, 1).unwrap();
    let mut table = ReactionTable::new();
    let (world, owner) = effect(world, root, &mut table, Copy { name: "e", from: a, to: None, log: log.clone() });
    assert_eq!(taken(&log), vec!["e saw 1"]);
    assert_eq!(world.parent(owner), Some(root));
    assert!(world.has_scope(owner));
    assert!(!world.is_stale(owner));
    assert_eq!(table.len(), 1);
    assert_eq!(table.owner_at(0), Some(owner));
    assert_eq!(table.find(owner), Some(0));
}

#[test]
fn stale_reaction_reruns_and_fresh_one_rests() {
    let log = log();
    let mut world: Store<i32> = Store::new();
    let root = world.spawn_empty();
    let a = create_mutable(&mut world, root, INT, 1).unwrap();
    let b = create_mutable(&mut world, root, INT, 10).unwrap();
    let mut table = ReactionTable::new();
    let (world, on_a) = effect(world, root, &mut table, Copy { name: "on_a", from: a, to: None, log: log.clone() });
    let (mut world, on_b) = effect(world, root, &mut table, Copy { name: "on_b", from: b, to: None, log: log.clone() });
    taken(&log);

    table.run_reactions(&mut world);
    assert!(taken(&log).is_empty());

    a.set(&mut world, 2).unwrap();
    assert!(world.is_stale(on_a));
    assert!(!world.is_stale(on_b));
    table.run_reactions(&mut world);
    assert_eq!(taken(&log), vec!["on_a saw 2"]);
    assert!(!world.is_stale(on_a));

    table.run_reactions(&mut world);
    assert!(taken(&log).is_empty());

    b.set(&mut world, 10).unwrap();
    a.set(&mut world, 3).unwrap();
    table.run_reactions(&mut world);
    assert_eq!(taken(&log), vec!["on_a saw 3", "on_b saw 10"]);
}

#[test]
fn own_writes_do_not_bring_a_reaction_back() {
    let log = log();
    let mut world: Store<i32> = Store::new();
    let root = world.spawn_empty();
    let a = create_mutable(&mut world, root, INT, 1).unwrap();
    let mut table = ReactionTable::new();
    let (mut world, owner) =
        effect(world, root, &mut table, Copy { name: "loop", from: a, to: Some(a), log: log.clone() });
    assert_eq!(taken(&log), vec!["loop saw 1"]);
    assert_eq!(a.read(&world), Ok(&2));
    assert!(!world.is_stale(owner));
    table.run_reactions(&mut world);
    assert!(taken(&log).is_empty());
    a.set(&mut world, 5).unwrap();
    table.run_reactions(&mut world);
    assert_eq!(taken(&log), vec!["loop saw 5"]);
    assert_eq!(a.read(&world), Ok(&6));
    table.run_reactions(&mut world);
    assert!(taken(&log).is_empty());
}

#[test]
fn write_of_an_earlier_reaction_reaches_a_later_one_on_the_next_pass() {
    let log = log();
    let mut world: Store<i32> = Store::new();
    let root = world.spawn_empty();
    let a = create_mutable(&mut world, root, INT, 1).unwrap();
    let b = create_mutable(&mut world, root, INT, 0).unwrap();
    let mut table = ReactionTable::new();
    let (world, _first) = effect(world, root, &mut table, Copy { name: "first", from: a, to: Some(b), log: log.clone() });
    let (mut world, _second) = effect(world, root, &mut table, Copy { name: "second", from: b, to: None, log: log.clone() });
    assert_eq!(taken(&log), vec!["first saw 1", "second saw 2"]);
    a.set(&mut world, 7).unwrap();
    table.run_reactions(&mut world);
    assert_eq!(taken(&log), vec!["first saw 7"]);
    table.run_reactions(&mut world);
    assert_eq!(taken(&log), vec!["second saw 8"]);
    table.run_reactions(&mut world);
    assert!(taken(&log).is_empty());
}

#[test]
fn scope_is_replaced_as_a_whole() {
    let log = log();
    let mut world: Store<i32> = Store::new();
    let root = world.spawn_empty();
    let a = create_mutable(&mut world, root, INT, 1).unwrap();
    let b = create_mutable(&mut world, root, INT, 2).unwrap();
    let owner = world.spawn_child(root).unwrap();
    let mut scope = TrackingScope::new(0);
    scope.record(b.dependency());
    world.insert_scope(owner, scope).unwrap();
    let mut table = ReactionTable::new();
    table.insert(
        owner,
        ReactionCell::new(EffectReaction { effect: Copy { name: "e", from: a, to: None, log: log.clone() } }),
    );
    table.run_reactions(&mut world);
    assert_eq!(taken(&log), vec!["e saw 1"]);
    let replaced = world.take_scope(owner).unwrap();
    assert!(replaced.contains(a.dependency()));
    assert!(!replaced.contains(b.dependency()));
    assert_eq!(replaced.baseline(), world.change_tick());
}

#[test]
fn razed_owner_ends_its_reaction() {
    let log = log();
    let mut world: Store<i32> = Store::new();
    let root = world.spawn_empty();
    let a = create_mutable(&mut world, root, INT, 1).unwrap();
    let mut table = ReactionTable::new();
    let (mut world, owner) = effect(world, root, &mut table, Copy { name: "e", from: a, to: None, log: log.clone() });
    taken(&log);
    a.set(&mut world, 2).unwrap();
    world.despawn_recursive(owner);
    table.run_reactions(&mut world);
    assert!(taken(&log).is_empty());
    assert_eq!(table.len(), 1);
    table.prune(&world);
    assert_eq!(table.len(), 0);
    assert_eq!(table.find(owner), None);
}

#[test]
fn failing_reaction_is_recorded_and_does_not_stop_the_pass() {
    let mut world: Store<i32> = Store::new();
    let root = world.spawn_empty();
    let a = create_mutable(&mut world, root, INT, 1).unwrap();
    let first = world.spawn_child(root).unwrap();
    let second = world.spawn_child(root).unwrap();
    for owner in [first, second] {
        let mut scope = TrackingScope::new(0);
        scope.record(a.dependency());
        world.insert_scope(owner, scope).unwrap();
    }
    let mut table = ReactionTable::new();
    table.insert(first, ReactionCell::new(Quit));
    table.insert(second, ReactionCell::new(Quit));
    assert_eq!(table.last_result(0), Ok(()));
    table.run_reactions(&mut world);
    assert_eq!(table.last_result(0), Err(ReactorError::InvalidState));
    assert_eq!(table.last_result(1), Err(ReactorError::InvalidState));
    assert_eq!(table.last_result(2), Ok(()));
    assert!(!world.is_alive(first));
    assert!(!world.is_alive(second));
    assert!(!world.has_scope(first));
}

#[test]
fn table_holds_one_cell_per_owner() {
    let log = log();
    let mut world: Store<i32> = Store::new();
    let root = world.spawn_empty();
    let a = create_mutable(&mut world, root, INT, 1).unwrap();
    let mut table = ReactionTable::new();
    let make = |name: &'static str| ReactionCell::new(EffectReaction {
        effect: Copy { name, from: a, to: None, log: log.clone() },
    });
    table.insert(root, make("one"));
    table.insert(a.cell, make("two"));
    table.insert(root, make("three"));
    assert_eq!(table.len(), 2);
    assert_eq!(table.owner_at(0), Some(root));
    assert_eq!(table.owner_at(1), Some(a.cell));
    assert_eq!(table.owner_at(2), None);
    assert_eq!(table.cell_at(0).unwrap().0.effect.name, "three");
    assert!(table.cell_at(2).is_none());
    let removed = table.remove(root).unwrap();
    assert_eq!(removed.0.effect.name, "three");
    assert!(table.remove(root).is_none());
    assert_eq!(table.len(), 1);
    assert_eq!(table.owner_at(0), Some(a.cell));
}

#[test]
fn effect_reaction_adds_its_reads_to_the_scope() {
    let log = log();
    let mut world: Store<i32> = Store::new();
    let root = world.spawn_empty();
    let a = create_mutable(&mut world, root, INT, 1).unwrap();
    let b = create_mutable(&mut world, root, INT, 2).unwrap();
    let mut reaction = EffectReaction { effect: Copy { name: "e", from: a, to: Some(b), log: log.clone() } };
    let mut scope = TrackingScope::new(4);
    scope.record(b.dependency());
    assert_eq!(reaction.react(root, &mut world, &mut scope), Ok(()));
    assert!(scope.contains(a.dependency()));
    assert!(scope.contains(b.dependency()));
    assert_eq!(scope.baseline(), 4);
    assert_eq!(b.read(&world), Ok(&2));
    assert_eq!(taken(&log), vec!["e saw 1"]);
}

#[test]
fn empty_effect_changes_nothing() {
    let mut world: Store<i32> = Store::new();
    let root = world.spawn_empty();
    let mut reaction = EffectReaction { effect: () };
    let mut scope = TrackingScope::new(3);
    assert_eq!(reaction.react(root, &mut world, &mut scope), Ok(()));
    assert!(scope.is_empty());
    assert_eq!(scope.baseline(), 3);
    assert_eq!(world.len(), 1);
    assert_eq!(world.change_tick(), 0);
}

#[test]
fn add_reaction_runs_once_and_registers() {
    let log = log();
    let mut world: Store<i32> = Store::new();
    let root = world.spawn_empty();
    let a = create_mutable(&mut world, root, INT, 1).unwrap();
    let owner = world.spawn_child(root).unwrap();
    let mut table = ReactionTable::new();
    let reaction = EffectReaction { effect: Copy { name: "e", from: a, to: None, log: log.clone() } };
    assert_eq!(table.add_reaction(&mut world, owner, reaction), Ok(()));
    assert_eq!(taken(&log), vec!["e saw 1"]);
    assert_eq!(table.find(owner), Some(0));
    assert!(world.has_scope(owner));
    assert!(!world.is_stale(owner));
    a.set(&mut world, 2).unwrap();
    table.run_reactions(&mut world);
    assert_eq!(taken(&log), vec!["e saw 2"]);
}

#[test]
fn add_reaction_for_a_razed_owner_does_not_run() {
    let log = log();
    let mut world: Store<i32> = Store::new();
    let root = world.spawn_empty();
    let a = create_mutable(&mut world, root, INT, 1).unwrap();
    let owner = world.spawn_child(root).unwrap();
    world.despawn_recursive(owner);
    let mut table = ReactionTable::new();
    let reaction = EffectReaction { effect: Copy { name: "e", from: a, to: None, log: log.clone() } };
    assert_eq!(table.add_reaction(&mut world, owner, reaction), Err(ReactorError::MissingDependency));
    assert!(taken(&log).is_empty());
    assert_eq!(table.len(), 0);
}

#[test]
fn reaction_that_razes_its_owner_on_its_first_run_is_not_kept() {
    let mut world: Store<i32> = Store::new();
    let root = world.spawn_empty();
    let owner = world.spawn_child(root).unwrap();
    let mut table = ReactionTable::new();
    assert_eq!(table.add_reaction(&mut world, owner, Quit), Err(ReactorError::InvalidState));
    assert_eq!(table.len(), 0);
    assert!(!world.is_alive(owner));
}

#[test]
fn create_effect_below_a_razed_parent_registers_nothing() {
    let log = log();
    let mut world: Store<i32> = Store::new();
    let root = world.spawn_empty();
    let a = create_mutable(&mut world, root, INT, 1).unwrap();
    let parent = world.spawn_child(root).unwrap();
    world.despawn_recursive(parent);
    let mut table = ReactionTable::new();
    let mut builder = UiBuilder::new(world, parent);
    let copy = Copy { name: "e", from: a, to: None, log: log.clone() };
    assert_eq!(builder.create_effect(&mut table, copy), Err(ReactorError::MissingDependency));
    assert!(taken(&log).is_empty());
    assert_eq!(table.len(), 0);
}

#[test]
fn reaction_target_names_a_node() {
    let target = ReactionTarget(4);
    assert_eq!(target.0, 4);
    assert_eq!(target, ReactionTarget(4));
}
