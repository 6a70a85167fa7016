use bevy_reactor::callback::{AnyCallback, Callback, CallbackRegistry, Commands, Procedure, RunCallback};
use bevy_reactor::error::ReactorError;
use bevy_reactor::mutable::{create_mutable, Mutable};
use bevy_reactor::store::Store;

const INT: u64 = 1;
const TEXT: u64 = 2;

/// Adds its input to a cell.
struct AddTo {
    cell: Mutable,
    runs: u32,
}

impl Procedure<i32, i32> for AddTo {
    fn run(&mut self, world: &mut Store<i32>, props: i32) {
        self.runs += 1;
        let now = *self.cell.read(world).unwrap();
        self.cell.set(world, now + props).unwrap();
    }
}

fn setup() -> (Store<i32>, usize, usize, Mutable, CallbackRegistry<AddTo>) {
    let mut world: Store<i32> = Store::new();
    let root = world.spawn_empty();
    let owner = world.spawn_child(root).unwrap();
    let cell = create_mutable(&mut world, root, INT, 100).unwrap();
    (world, root, owner, cell, CallbackRegistry::new())
}

#[test]
fn create_and_run_callback() {
    let (mut world, _root, owner, cell, mut registry) = setup();
    let cb = registry.create_callback(&world, owner, INT, AddTo { cell, runs: 0 }).unwrap();
    assert_eq!(cb, Callback { id: 0, tag: INT });
    assert!(registry.is_registered(cb));
    assert_eq!(registry.check(&world, cb), None);
    assert_eq!(registry.run_callback(&mut world, cb, 5), Ok(()));
    assert_eq!(cell.read(&world), Ok(&105));
    assert_eq!(registry.run_callback(&mut world, cb, 7), Ok(()));
    assert_eq!(cell.read(&world), Ok(&112));
}

#[test]
fn owner_keeps_the_list_of_its_callbacks() {
    let (world, root, owner, cell, mut registry) = setup();
    let a = registry.create_callback(&world, owner, INT, AddTo { cell, runs: 0 }).unwrap();
    let b = registry.create_callback(&world, root, INT, AddTo { cell, runs: 0 }).unwrap();
    let c = registry.create_callback(&world, owner, TEXT, AddTo { cell, runs: 0 }).unwrap();
    assert_eq!(registry.owned_by(owner), vec![a, c]);
    assert_eq!(registry.owned_by(root), vec![b]);
    assert_eq!(registry.owned_by(42), vec![]);
}

#[test]
fn callback_for_missing_owner_is_not_registered() {
    let (world, _root, _owner, cell, mut registry) = setup();
    assert_eq!(
        registry.create_callback(&world, 50, INT, AddTo { cell, runs: 0 }),
        Err(ReactorError::MissingDependency)
    );
    assert!(!registry.is_registered(Callback { id: 0, tag: INT }));
}

#[test]
fn handle_with_wrong_tag_is_downcast_mismatch() {
    let (mut world, _root, owner, cell, mut registry) = setup();
    let cb = registry.create_callback(&world, owner, INT, AddTo { cell, runs: 0 }).unwrap();
    let wrong = Callback { id: cb.id, tag: TEXT };
    assert_eq!(registry.run_callback(&mut world, wrong, 5), Err(ReactorError::DowncastMismatch));
    assert_eq!(cell.read(&world), Ok(&100));
    assert_eq!(registry.remove(cb).unwrap().runs, 0);
}

#[test]
fn downcast_checks_the_tag() {
    let cb = Callback { id: 3, tag: INT };
    let any: AnyCallback = cb.erase();
    assert_eq!(cb.type_id(), INT);
    assert_eq!(any.type_id(), INT);
    assert_eq!(any.downcast(INT), Ok(cb));
    assert_eq!(any.downcast(TEXT), Err(ReactorError::DowncastMismatch));
}

#[test]
fn callback_of_razed_owner_fails_and_does_not_run() {
    let (mut world, _root, owner, cell, mut registry) = setup();
    let cb = registry.create_callback(&world, owner, INT, AddTo { cell, runs: 0 }).unwrap();
    world.despawn_recursive(owner);
    let tick = world.change_tick();
    assert_eq!(registry.check(&world, cb), Some(ReactorError::MissingDependency));
    assert_eq!(registry.run_callback(&mut world, cb, 5), Err(ReactorError::MissingDependency));
    assert_eq!(cell.read(&world), Ok(&100));
    assert_eq!(world.change_tick(), tick);
    assert_eq!(registry.remove(cb).unwrap().runs, 0);
}

#[test]
fn removed_callback_leaves_the_table() {
    let (mut world, _root, owner, cell, mut registry) = setup();
    let cb = registry.create_callback(&world, owner, INT, AddTo { cell, runs: 0 }).unwrap();
    registry.run_callback(&mut world, cb, 1).unwrap();
    let procedure = registry.remove(cb).unwrap();
    assert_eq!(procedure.runs, 1);
    assert!(!registry.is_registered(cb));
    assert!(registry.remove(cb).is_err());
    assert_eq!(registry.run_callback(&mut world, cb, 1), Err(ReactorError::MissingDependency));
    assert_eq!(registry.owned_by(owner), vec![]);
    let next = registry.create_callback(&world, owner, INT, AddTo { cell, runs: 0 }).unwrap();
    assert_ne!(next.id, cb.id);
}

#[test]
fn unknown_handle_is_missing_dependency() {
    let (mut world, _root, _owner, _cell, mut registry) = setup();
    let cb = Callback { id: 9, tag: INT };
    assert_eq!(registry.run_callback(&mut world, cb, 1), Err(ReactorError::MissingDependency));
    assert!(registry.remove(cb).is_err());
}

#[test]
fn sweep_unregisters_what_razed_nodes_owned() {
    let (mut world, root, owner, cell, mut registry) = setup();
    let a = registry.create_callback(&world, owner, INT, AddTo { cell, runs: 0 }).unwrap();
    let b = registry.create_callback(&world, root, INT, AddTo { cell, runs: 0 }).unwrap();
    assert_eq!(registry.sweep(&world), 0);
    world.despawn_recursive(owner);
    assert_eq!(registry.sweep(&world), 1);
    assert!(!registry.is_registered(a));
    assert!(registry.is_registered(b));
    assert_eq!(registry.sweep(&world), 0);
}

#[test]
fn queued_callbacks_run_in_order_when_applied() {
    let (mut world, _root, owner, cell, mut registry) = setup();
    let cb = registry.create_callback(&world, owner, INT, AddTo { cell, runs: 0 }).unwrap();
    let mut commands: Commands<i32> = Commands::new();
    commands.run_callback(cb, 1);
    commands.run_callback(Callback { id: cb.id, tag: TEXT }, 10);
    commands.run_callback(cb, 2);
    assert_eq!(commands.len(), 3);
    assert_eq!(cell.read(&world), Ok(&100));
    let results = registry.apply(&mut world, &mut commands);
    assert_eq!(results, vec![Ok(()), Err(ReactorError::DowncastMismatch), Ok(())]);
    assert_eq!(cell.read(&world), Ok(&103));
    assert_eq!(commands.len(), 0);
    assert_eq!(registry.remove(cb).unwrap().runs, 2);
}

#[test]
fn queued_callback_is_judged_when_its_turn_comes() {
    let (mut world, _root, owner, cell, mut registry) = setup();
    let cb = registry.create_callback(&world, owner, INT, AddTo { cell, runs: 0 }).unwrap();
    let mut commands: Commands<i32> = Commands::new();
    commands.run_callback(cb, 1);
    world.despawn_recursive(owner);
    let results = registry.apply(&mut world, &mut commands);
    assert_eq!(results, vec![Err(ReactorError::MissingDependency)]);
    assert_eq!(cell.read(&world), Ok(&100));
}
