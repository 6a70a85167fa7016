use std::cell::Cell;
use std::rc::Rc;

use bevy_reactor::context::Rcx;
use bevy_reactor::derived::{create_derived, Derived, DerivedFn, ReadDerived};
use bevy_reactor::error::ReactorError;
use bevy_reactor::mutable::{create_mutable, Mutable};
use bevy_reactor::tracking_scope::{Dependency, TrackingScope};
use bevy_reactor::store::Store;

const INT: u64 = 1;

/// The sum of two cells; counts how often it is computed.
struct Sum {
    a: Mutable,
    b: Mutable,
    calls: Rc<Cell<u32>>,
}

impl DerivedFn<i32, i32> for Sum {
    fn call(&self, cx: &mut Rcx<i32>) -> i32 {
        self.calls.set(self.calls.get() + 1);
        self.a.get(cx).unwrap_or(0) + self.b.get(cx).unwrap_or(0)
    }
}

/// Twice another derived signal.
struct Twice {
    inner: Derived<Sum>,
}

impl DerivedFn<i32, i32> for Twice {
    fn call(&self, cx: &mut Rcx<i32>) -> i32 {
        let world = cx.world;
        2 * world.read_derived_with_scope(&self.inner, &mut cx.tracking).unwrap_or(0)
    }
}

fn setup() -> (Store<i32>, usize, Mutable, Mutable) {
    let mut world: Store<i32> = Store::new();
    let owner = world.spawn_empty();
    let a = create_mutable(&mut world, owner, INT, 3).unwrap();
    let b = create_mutable(&mut world, owner, INT, 4).unwrap();
    (world, owner, a, b)
}

#[test]
fn create_mutable_makes_a_cell_below_the_owner() {
    let (world, owner, a, b) = setup();
    assert_eq!(a, Mutable { cell: 1, kind: INT });
    assert_eq!(b, Mutable { cell: 2, kind: INT });
    assert_eq!(world.parent(a.cell), Some(owner));
    assert_eq!(world.change_tick(), 2);
    assert_eq!(a.read(&world), Ok(&3));
    assert_eq!(b.read(&world), Ok(&4));
    assert_eq!(a.dependency(), Dependency { id: 1, kind: INT });
}

#[test]
fn create_mutable_below_missing_owner_fails() {
    let mut world: Store<i32> = Store::new();
    assert_eq!(create_mutable(&mut world, 0, INT, 3), Err(ReactorError::MissingDependency));
    assert_eq!(world.len(), 0);
    let mut last: Store<i32> = Store::starting_at(u64::MAX);
    let owner = last.spawn_empty();
    assert_eq!(create_mutable(&mut last, owner, INT, 3), Err(ReactorError::TickOverflow));
    assert_eq!(last.len(), 1);
}

#[test]
fn tracked_read_records_the_cell() {
    let (world, owner, a, b) = setup();
    let mut cx = Rcx::new(&world, owner, TrackingScope::new(world.change_tick()));
    assert_eq!(a.get(&mut cx), Ok(3));
    let scope = cx.into_tracking();
    assert!(scope.contains(a.dependency()));
    assert!(!scope.contains(b.dependency()));
}

#[test]
fn untracked_read_records_nothing() {
    let (world, _owner, a, _b) = setup();
    let scope = TrackingScope::new(world.change_tick());
    assert_eq!(a.read(&world), Ok(&3));
    assert!(scope.is_empty());
}

#[test]
fn get_clone_and_get_map() {
    let mut world: Store<String> = Store::new();
    let owner = world.spawn_empty();
    let name = create_mutable(&mut world, owner, 2, String::from("abc")).unwrap();
    let mut cx = Rcx::new(&world, owner, TrackingScope::new(0));
    assert_eq!(name.get_clone(&mut cx), Ok(String::from("abc")));
    assert_eq!(name.get_map(&mut cx, |s: &String| s.len()), Ok(3));
    let scope = cx.into_tracking();
    assert!(scope.contains(name.dependency()));
}

#[test]
fn set_and_set_clone_write_and_stamp() {
    let mut world: Store<String> = Store::new();
    let owner = world.spawn_empty();
    let name = create_mutable(&mut world, owner, 2, String::from("abc")).unwrap();
    assert_eq!(world.change_tick(), 1);
    assert_eq!(name.set(&mut world, String::from("x")), Ok(()));
    assert_eq!(world.change_tick(), 2);
    assert_eq!(name.read(&world), Ok(&String::from("x")));
    let next = String::from("yz");
    assert_eq!(name.set_clone(&mut world, &next), Ok(()));
    assert_eq!(world.change_tick(), 3);
    assert_eq!(name.read(&world), Ok(&String::from("yz")));
}

#[test]
fn cell_of_razed_owner_is_missing_dependency() {
    let (mut world, owner, a, _b) = setup();
    world.despawn_recursive(owner);
    assert_eq!(a.read(&world), Err(ReactorError::MissingDependency));
    assert_eq!(a.set(&mut world, 9), Err(ReactorError::MissingDependency));
    assert_eq!(a.set_clone(&mut world, &9), Err(ReactorError::MissingDependency));
    let mut cx = Rcx::new(&world, owner, TrackingScope::new(0));
    assert_eq!(a.get(&mut cx), Err(ReactorError::MissingDependency));
    assert_eq!(a.get_clone(&mut cx), Err(ReactorError::MissingDependency));
    assert_eq!(a.get_map(&mut cx, |v: &i32| *v), Err(ReactorError::MissingDependency));
    assert!(cx.into_tracking().contains(a.dependency()));
}

#[test]
fn handle_with_other_tag_is_missing_dependency() {
    let (mut world, _owner, a, _b) = setup();
    let wrong = Mutable { cell: a.cell, kind: INT + 1 };
    assert_eq!(wrong.read(&world), Err(ReactorError::MissingDependency));
    assert_eq!(wrong.set(&mut world, 1), Err(ReactorError::MissingDependency));
    assert_eq!(a.read(&world), Ok(&3));
}

#[test]
fn mutable_is_a_signal() {
    let (world, owner, a, _b) = setup();
    let mut cx = Rcx::new(&world, owner, TrackingScope::new(0));
    assert_eq!(a.call(&mut cx), Ok(3));
    assert!(cx.into_tracking().contains(a.dependency()));
}

#[test]
fn derived_is_computed_on_every_read() {
    let (mut world, _owner, a, b) = setup();
    let calls = Rc::new(Cell::new(0));
    let sum = create_derived(&mut world, Sum { a, b, calls: calls.clone() });
    assert_eq!(calls.get(), 0);
    assert_eq!(world.read_derived(&sum), Ok(7));
    assert_eq!(world.read_derived(&sum), Ok(7));
    assert_eq!(calls.get(), 2);
    a.set(&mut world, 10).unwrap();
    assert_eq!(world.read_derived(&sum), Ok(14));
    assert_eq!(calls.get(), 3);
    assert_eq!(world.read_derived_clone(&sum), Ok(14));
    assert_eq!(world.read_derived_map(&sum, |v: &i32| *v + 1), Ok(15));
    assert_eq!(calls.get(), 5);
}

#[test]
fn derived_reads_are_attributed_to_the_caller() {
    let (mut world, _owner, a, b) = setup();
    let calls = Rc::new(Cell::new(0));
    let sum = create_derived(&mut world, Sum { a, b, calls });
    let mut scope = TrackingScope::new(world.change_tick());
    scope.record(Dependency { id: 77, kind: 9 });
    assert_eq!(world.read_derived_with_scope(&sum, &mut scope), Ok(7));
    assert!(scope.contains(a.dependency()));
    assert!(scope.contains(b.dependency()));
    assert!(scope.contains(Dependency { id: 77, kind: 9 }));
    assert_eq!(scope.baseline(), world.change_tick());
    assert!(!scope.is_stale(&world));
    b.set(&mut world, 5).unwrap();
    assert!(scope.is_stale(&world));
}

#[test]
fn nested_derived_reads_reach_the_caller() {
    let (mut world, _owner, a, b) = setup();
    let calls = Rc::new(Cell::new(0));
    let sum = create_derived(&mut world, Sum { a, b, calls: calls.clone() });
    let twice = create_derived(&mut world, Twice { inner: sum });
    let mut scope = TrackingScope::new(world.change_tick());
    assert_eq!(world.read_derived_with_scope(&twice, &mut scope), Ok(14));
    assert!(scope.contains(a.dependency()));
    assert!(scope.contains(b.dependency()));
    assert_eq!(world.read_derived_clone_with_scope(&twice, &mut scope), Ok(14));
    assert_eq!(world.read_derived_map_with_scope(&twice, &mut scope, |v: &i32| *v - 4), Ok(10));
    assert_eq!(calls.get(), 3);
}

#[test]
fn derived_on_razed_node_is_missing_dependency() {
    let (mut world, _owner, a, b) = setup();
    let calls = Rc::new(Cell::new(0));
    let sum = create_derived(&mut world, Sum { a, b, calls: calls.clone() });
    world.despawn_recursive(sum.id);
    let mut scope = TrackingScope::new(0);
    assert_eq!(world.read_derived(&sum), Err(ReactorError::MissingDependency));
    assert_eq!(world.read_derived_clone(&sum), Err(ReactorError::MissingDependency));
    assert_eq!(world.read_derived_map(&sum, |v: &i32| *v), Err(ReactorError::MissingDependency));
    assert_eq!(world.read_derived_with_scope(&sum, &mut scope), Err(ReactorError::MissingDependency));
    assert!(scope.is_empty());
    assert_eq!(calls.get(), 0);
}
