use std::cell::{Cell, RefCell};
use std::rc::Rc;

use bevy_reactor::cond::{build_branch_state, cond, raze_branch, Cond, CondState};
use bevy_reactor::context::Rcx;
use bevy_reactor::derived::{DerivedFn, FlagTest};
use bevy_reactor::error::ReactorError;
use bevy_reactor::fragment::Fragment;
use bevy_reactor::mutable::{create_mutable, Mutable};
use bevy_reactor::node_span::NodeSpan;
use bevy_reactor::reaction::{ReactionCell, ReactionTable};
use bevy_reactor::tracking_scope::TrackingScope;
use bevy_reactor::view::ReactiveView;
use bevy_reactor::store::Store;

const FLAG: u64 = 1;

type Log = Rc<RefCell<Vec<String>>>;

/// A view that shows one node and writes down what is done to it.
#[derive(Clone)]
struct Leaf {
    name: &'static str,
    log: Log,
    node: Option<usize>,
    extra: usize,
}

impl Leaf {
    fn new(name: &'static str, log: &Log) -> Leaf {
        Leaf { name, log: log.clone(), node: None, extra: 0 }
    }

    fn with_children(name: &'static str, log: &Log, extra: usize) -> Leaf {
        Leaf { name, log: log.clone(), node: None, extra }
    }
}

impl ReactiveView<bool> for Leaf {
    fn nodes(&self) -> NodeSpan {
        match self.node {
            Some(node) => NodeSpan::Node(node),
            None => NodeSpan::Empty,
        }
    }

    fn build(&mut self, node: usize, world: &mut Store<bool>) -> Result<(), ReactorError> {
        self.log.borrow_mut().push(format!("build {} on {}", self.name, node));
        for _ in 0..self.extra {
            world.spawn_child(node)?;
        }
        self.node = Some(node);
        Ok(())
    }

    fn react(&mut self, _node: usize, _world: &mut Store<bool>, _tracking: &mut TrackingScope) -> Result<(), ReactorError> {
        Ok(())
    }

    fn raze(&mut self, node: usize, _world: &mut Store<bool>) -> Result<(), ReactorError> {
        self.log.borrow_mut().push(format!("raze {} on {}", self.name, node));
        self.node = None;
        if self.name == "stuck" {
            return Err(ReactorError::MissingDependency);
        }
        Ok(())
    }
}

/// The test of a conditional view: the value of a cell.
struct CellIsTrue {
    cell: Mutable,
    calls: Rc<Cell<u32>>,
}

impl DerivedFn<bool, bool> for CellIsTrue {
    fn call(&self, cx: &mut Rcx<bool>) -> bool {
        self.calls.set(self.calls.get() + 1);
        self.cell.get(cx).unwrap_or(false)
    }
}

fn log() -> Log {
    Rc::new(RefCell::new(Vec::new()))
}

fn entries(log: &Log) -> Vec<String> {
    log.borrow().clone()
}

fn flat(span: &NodeSpan) -> Vec<usize> {
    let mut out = Vec::new();
    span.flatten(&mut out);
    out
}

#[test]
fn node_span_flattens_nested_fragments() {
    let span = NodeSpan::Fragment(vec![
        NodeSpan::Node(1),
        NodeSpan::Empty,
        NodeSpan::Fragment(vec![NodeSpan::Node(2), NodeSpan::Fragment(vec![NodeSpan::Node(3)]), NodeSpan::Empty]),
        NodeSpan::Node(4),
    ]);
    assert_eq!(flat(&span), vec![1, 2, 3, 4]);
    assert_eq!(span.count(), 4);
    assert_eq!(NodeSpan::Empty.count(), 0);
    assert_eq!(NodeSpan::Node(9).count(), 1);
    assert_eq!(flat(&NodeSpan::Fragment(vec![])), Vec::<usize>::new());
    let mut out = vec![7];
    NodeSpan::Node(8).flatten(&mut out);
    assert_eq!(out, vec![7, 8]);
}

#[test]
fn fragment_builds_and_razes_in_declared_order() {
    let log = log();
    let mut world: Store<bool> = Store::new();
    let root = world.spawn_empty();
    let view = world.spawn_child(root).unwrap();
    let mut fragment = Fragment::new(vec![Leaf::new("A", &log), Leaf::new("B", &log), Leaf::new("C", &log)]);
    assert_eq!(fragment.len(), 3);
    assert_eq!(fragment.child_entity(0), None);
    assert_eq!(flat(&fragment.nodes()), Vec::<usize>::new());

    assert_eq!(fragment.build(view, &mut world), Ok(()));
    assert_eq!(entries(&log), vec!["build A on 2", "build B on 3", "build C on 4"]);
    assert_eq!(fragment.child_entity(0), Some(2));
    assert_eq!(fragment.child_entity(1), Some(3));
    assert_eq!(fragment.child_entity(2), Some(4));
    assert_eq!(fragment.child_entity(3), None);
    assert_eq!(world.parent(3), Some(view));
    assert_eq!(flat(&fragment.nodes()), vec![2, 3, 4]);

    log.borrow_mut().clear();
    assert_eq!(fragment.raze(view, &mut world), Ok(()));
    assert_eq!(entries(&log), vec!["raze A on 2", "raze B on 3", "raze C on 4"]);
    assert_eq!(fragment.child_entity(0), None);
    assert!(!world.is_alive(view));
    assert!(!world.is_alive(2));
    assert!(!world.is_alive(3));
    assert!(!world.is_alive(4));
    assert!(world.is_alive(root));
}

#[test]
fn nested_fragments_flatten_in_order() {
    let log = log();
    let mut world: Store<bool> = Store::new();
    let root = world.spawn_empty();
    let inner_one = Fragment::new(vec![Leaf::new("A", &log), Leaf::new("B", &log)]);
    let inner_two = Fragment::new(vec![Leaf::new("C", &log)]);
    let mut outer = Fragment::new(vec![inner_one, Fragment::default(), inner_two]);
    assert_eq!(outer.build(root, &mut world), Ok(()));
    assert_eq!(entries(&log), vec!["build A on 2", "build B on 3", "build C on 6"]);
    assert_eq!(flat(&outer.nodes()), vec![2, 3, 6]);
    assert_eq!(outer.nodes().count(), 3);
    log.borrow_mut().clear();
    assert_eq!(outer.raze(root, &mut world), Ok(()));
    assert_eq!(entries(&log), vec!["raze A on 2", "raze B on 3", "raze C on 6"]);
    for node in 0..world.len() {
        assert!(!world.is_alive(node));
    }
}

#[test]
fn fragment_react_does_nothing() {
    let log = log();
    let mut world: Store<bool> = Store::new();
    let root = world.spawn_empty();
    let mut fragment = Fragment::new(vec![Leaf::new("A", &log)]);
    fragment.build(root, &mut world).unwrap();
    log.borrow_mut().clear();
    let mut scope = TrackingScope::new(0);
    assert_eq!(ReactiveView::react(&mut fragment, root, &mut world, &mut scope), Ok(()));
    assert!(entries(&log).is_empty());
    assert!(scope.is_empty());
    assert_eq!(world.len(), 2);
}

#[test]
fn fragment_below_razed_node_builds_nothing() {
    let log = log();
    let mut world: Store<bool> = Store::new();
    let root = world.spawn_empty();
    world.despawn_recursive(root);
    let mut fragment = Fragment::new(vec![Leaf::new("A", &log), Leaf::new("B", &log)]);
    assert_eq!(fragment.build(root, &mut world), Err(ReactorError::MissingDependency));
    assert!(entries(&log).is_empty());
    assert_eq!(fragment.child_entity(0), None);
}

#[test]
fn fragment_that_is_not_built_cannot_be_razed() {
    let log = log();
    let mut world: Store<bool> = Store::new();
    let root = world.spawn_empty();
    let node = world.spawn_child(root).unwrap();
    let mut fragment = Fragment::new(vec![Leaf::new("A", &log), Leaf::new("B", &log)]);
    assert_eq!(fragment.raze(node, &mut world), Err(ReactorError::InvalidState));
    assert!(entries(&log).is_empty());
    assert!(world.is_alive(node));

    fragment.build(node, &mut world).unwrap();
    log.borrow_mut().clear();
    assert_eq!(fragment.raze(node, &mut world), Ok(()));
    assert_eq!(entries(&log), vec!["raze A on 2", "raze B on 3"]);
    assert!(!world.is_alive(node));
    log.borrow_mut().clear();
    assert_eq!(fragment.raze(node, &mut world), Err(ReactorError::InvalidState));
    assert!(entries(&log).is_empty());
}

#[test]
fn fragment_raze_stops_at_the_child_that_fails() {
    let log = log();
    let mut world: Store<bool> = Store::new();
    let root = world.spawn_empty();
    let node = world.spawn_child(root).unwrap();
    let mut fragment =
        Fragment::new(vec![Leaf::new("A", &log), Leaf::new("stuck", &log), Leaf::new("C", &log)]);
    fragment.build(node, &mut world).unwrap();
    log.borrow_mut().clear();
    assert_eq!(fragment.raze(node, &mut world), Err(ReactorError::MissingDependency));
    assert_eq!(entries(&log), vec!["raze A on 2", "raze stuck on 3"]);
    assert_eq!(fragment.child_entity(0), None);
    assert_eq!(fragment.child_entity(1), None);
    assert_eq!(fragment.child_entity(2), Some(4));
    assert!(world.is_alive(node));
}

#[test]
fn empty_fragment_razes_its_node() {
    let mut world: Store<bool> = Store::new();
    let root = world.spawn_empty();
    let node = world.spawn_child(root).unwrap();
    let mut fragment: Fragment<Leaf> = Fragment::default();
    assert_eq!(fragment.raze(node, &mut world), Ok(()));
    assert!(!world.is_alive(node));
    assert!(world.is_alive(root));
}

#[test]
fn fragment_span_has_one_span_per_child() {
    let log = log();
    let mut world: Store<bool> = Store::new();
    let root = world.spawn_empty();
    let mut fragment = Fragment::new(vec![Leaf::new("A", &log), Leaf::new("B", &log)]);
    fragment.build(root, &mut world).unwrap();
    match fragment.nodes() {
        NodeSpan::Fragment(spans) => {
            assert_eq!(spans.len(), 2);
            assert!(matches!(spans[0], NodeSpan::Node(1)));
            assert!(matches!(spans[1], NodeSpan::Node(2)));
        }
        _ => panic!("a fragment shows a fragment span"),
    }
    let empty: Fragment<Leaf> = Fragment::default();
    match empty.nodes() {
        NodeSpan::Fragment(spans) => assert!(spans.is_empty()),
        _ => panic!("a fragment shows a fragment span"),
    }
}

#[test]
fn fragment_from_slice_and_default() {
    let log = log();
    let views = [Leaf::new("A", &log), Leaf::new("B", &log)];
    let mut fragment = Fragment::from_slice(&views);
    assert_eq!(fragment.len(), 2);
    let mut world: Store<bool> = Store::new();
    let root = world.spawn_empty();
    fragment.build(root, &mut world).unwrap();
    assert_eq!(entries(&log), vec!["build A on 1", "build B on 2"]);
    let empty: Fragment<Leaf> = Fragment::default();
    assert_eq!(empty.len(), 0);
    assert_eq!(flat(&empty.nodes()), Vec::<usize>::new());
}

fn flag_cond(
    world: &mut Store<bool>,
    owner: usize,
    init: bool,
    log: &Log,
    calls: &Rc<Cell<u32>>,
) -> (Mutable, Cond<CellIsTrue, Leaf, impl Fn() -> Leaf, Leaf, impl Fn() -> Leaf>) {
    let flag = create_mutable(world, owner, FLAG, init).unwrap();
    let (pos_log, neg_log) = (log.clone(), log.clone());
    let view = cond(
        CellIsTrue { cell: flag, calls: calls.clone() },
        move || Leaf::with_children("ViewA", &pos_log, 2),
        move || Leaf::with_children("ViewB", &neg_log, 1),
    );
    (flag, view)
}

#[test]
fn cond_is_unset_before_build() {
    let log = log();
    let calls = Rc::new(Cell::new(0));
    let mut world: Store<bool> = Store::new();
    let root = world.spawn_empty();
    let (_flag, mut view) = flag_cond(&mut world, root, false, &log, &calls);
    assert_eq!(view.active_branch(), None);
    assert_eq!(view.active_node(), None);
    assert!(matches!(view.nodes(), NodeSpan::Empty));
    let mut scope = TrackingScope::new(0);
    let len = world.len();
    assert_eq!(
        ReactiveView::react(&mut view, root, &mut world, &mut scope),
        Err(ReactorError::InvalidState)
    );
    assert_eq!(view.active_branch(), None);
    assert_eq!(world.len(), len);
    assert!(scope.is_empty());
    assert_eq!(calls.get(), 0);
    assert!(entries(&log).is_empty());
}

#[test]
fn cond_builds_the_branch_of_the_test() {
    let log = log();
    let calls = Rc::new(Cell::new(0));
    let mut world: Store<bool> = Store::new();
    let root = world.spawn_empty();
    let node = world.spawn_child(root).unwrap();
    let (flag, mut view) = flag_cond(&mut world, root, true, &log, &calls);
    assert_eq!(view.build(node, &mut world), Ok(()));
    assert_eq!(calls.get(), 1);
    assert_eq!(view.active_branch(), Some(true));
    let branch = view.active_node().unwrap();
    assert_eq!(world.parent(branch), Some(node));
    assert_eq!(entries(&log), vec![format!("build ViewA on {}", branch)]);
    assert_eq!(flat(&view.nodes()), vec![branch]);
    assert!(world.has_scope(node));
    assert!(!world.is_stale(node));
    let scope = world.take_scope(node).unwrap();
    assert!(scope.contains(flag.dependency()));
}

#[test]
fn cond_swaps_branches_without_overlap() {
    let log = log();
    let calls = Rc::new(Cell::new(0));
    let mut world: Store<bool> = Store::new();
    let root = world.spawn_empty();
    let node = world.spawn_child(root).unwrap();
    let (flag, mut view) = flag_cond(&mut world, root, true, &log, &calls);
    view.build(node, &mut world).unwrap();
    let first = view.active_node().unwrap();
    let first_len = world.len();
    log.borrow_mut().clear();

    flag.set(&mut world, false).unwrap();
    let mut scope = TrackingScope::new(world.change_tick());
    assert_eq!(ReactiveView::react(&mut view, node, &mut world, &mut scope), Ok(()));
    let second = view.active_node().unwrap();
    assert_eq!(view.active_branch(), Some(false));
    assert_eq!(
        entries(&log),
        vec![format!("raze ViewA on {}", first), format!("build ViewB on {}", second)]
    );
    assert!(scope.contains(flag.dependency()));
    assert!(second >= first_len);
    for id in first..first_len {
        assert!(!world.is_alive(id));
    }
    assert!(world.is_alive(second));
    assert!(world.is_alive(second + 1));
    assert!(world.is_alive(node));
    assert_eq!(flat(&view.nodes()), vec![second]);

    log.borrow_mut().clear();
    flag.set(&mut world, true).unwrap();
    assert_eq!(ReactiveView::react(&mut view, node, &mut world, &mut scope), Ok(()));
    let third = view.active_node().unwrap();
    assert_eq!(view.active_branch(), Some(true));
    assert_eq!(
        entries(&log),
        vec![format!("raze ViewB on {}", second), format!("build ViewA on {}", third)]
    );
    assert!(!world.is_alive(second));
    assert!(!world.is_alive(second + 1));
}

#[test]
fn cond_keeps_its_branch_when_the_test_agrees() {
    let log = log();
    let calls = Rc::new(Cell::new(0));
    let mut world: Store<bool> = Store::new();
    let root = world.spawn_empty();
    let node = world.spawn_child(root).unwrap();
    let (flag, mut view) = flag_cond(&mut world, root, false, &log, &calls);
    view.build(node, &mut world).unwrap();
    let branch = view.active_node();
    let len = world.len();
    log.borrow_mut().clear();
    flag.set(&mut world, false).unwrap();
    let mut scope = TrackingScope::new(world.change_tick());
    assert_eq!(ReactiveView::react(&mut view, node, &mut world, &mut scope), Ok(()));
    assert_eq!(calls.get(), 2);
    assert_eq!(view.active_branch(), Some(false));
    assert_eq!(view.active_node(), branch);
    assert_eq!(world.len(), len);
    assert!(entries(&log).is_empty());
}

#[test]
fn cond_raze_tears_down_branch_and_node() {
    let log = log();
    let calls = Rc::new(Cell::new(0));
    let mut world: Store<bool> = Store::new();
    let root = world.spawn_empty();
    let node = world.spawn_child(root).unwrap();
    let (_flag, mut view) = flag_cond(&mut world, root, false, &log, &calls);
    view.build(node, &mut world).unwrap();
    let branch = view.active_node().unwrap();
    log.borrow_mut().clear();
    assert_eq!(view.raze(node, &mut world), Ok(()));
    assert_eq!(entries(&log), vec![format!("raze ViewB on {}", branch)]);
    assert_eq!(view.active_branch(), None);
    assert!(!world.is_alive(branch));
    assert!(!world.is_alive(node));
    assert!(world.is_alive(root));
    log.borrow_mut().clear();
    assert_eq!(view.raze(node, &mut world), Ok(()));
    assert!(entries(&log).is_empty());
}

#[test]
fn raze_of_an_unbuilt_cond_is_a_no_op() {
    let log = log();
    let calls = Rc::new(Cell::new(0));
    let mut world: Store<bool> = Store::new();
    let root = world.spawn_empty();
    let node = world.spawn_child(root).unwrap();
    let below = world.spawn_child(node).unwrap();
    let (_flag, mut view) = flag_cond(&mut world, root, false, &log, &calls);
    let len = world.len();
    assert_eq!(view.raze(node, &mut world), Ok(()));
    assert_eq!(view.active_branch(), None);
    assert!(world.is_alive(node));
    assert!(world.is_alive(below));
    assert_eq!(world.len(), len);
    assert_eq!(calls.get(), 0);
    assert!(entries(&log).is_empty());
}

#[test]
fn cond_without_a_parent_is_refused() {
    let log = log();
    let calls = Rc::new(Cell::new(0));
    let mut world: Store<bool> = Store::new();
    let root = world.spawn_empty();
    let (_flag, mut view) = flag_cond(&mut world, root, true, &log, &calls);
    let len = world.len();
    assert_eq!(view.build(root, &mut world), Err(ReactorError::MissingDependency));
    assert_eq!(view.active_branch(), None);
    assert_eq!(world.len(), len);
    assert!(!world.has_scope(root));
    assert_eq!(calls.get(), 0);
    assert!(entries(&log).is_empty());
}

#[test]
fn making_a_branch_marks_the_view_node() {
    let log = log();
    let calls = Rc::new(Cell::new(0));
    let mut world: Store<bool> = Store::new();
    let root = world.spawn_empty();
    let node = world.spawn_child(root).unwrap();
    let (flag, mut view) = flag_cond(&mut world, root, true, &log, &calls);
    assert!(!world.display_changed(node));
    view.build(node, &mut world).unwrap();
    assert!(world.take_display_changed(node));
    assert!(!world.display_changed(root));
    assert!(!world.display_changed(view.active_node().unwrap()));

    flag.set(&mut world, true).unwrap();
    let mut scope = TrackingScope::new(world.change_tick());
    ReactiveView::react(&mut view, node, &mut world, &mut scope).unwrap();
    assert!(!world.display_changed(node));

    flag.set(&mut world, false).unwrap();
    ReactiveView::react(&mut view, node, &mut world, &mut scope).unwrap();
    assert!(world.display_changed(node));
}

#[test]
fn cond_whose_branch_fails_to_raze_is_left_without_branch() {
    let log = log();
    let mut world: Store<bool> = Store::new();
    let root = world.spawn_empty();
    let node = world.spawn_child(root).unwrap();
    let flag = create_mutable(&mut world, root, FLAG, true).unwrap();
    let (pos_log, neg_log) = (log.clone(), log.clone());
    let mut view = Cond::new(
        FlagTest { cell: flag },
        move || Leaf::new("stuck", &pos_log),
        move || Leaf::new("no", &neg_log),
    );
    view.build(node, &mut world).unwrap();
    let branch = view.active_node().unwrap();
    log.borrow_mut().clear();
    flag.set(&mut world, false).unwrap();
    let mut scope = TrackingScope::new(world.change_tick());
    assert_eq!(
        ReactiveView::react(&mut view, node, &mut world, &mut scope),
        Err(ReactorError::MissingDependency)
    );
    assert_eq!(view.active_branch(), None);
    assert!(!world.is_alive(branch));
    assert_eq!(entries(&log), vec![format!("raze stuck on {}", branch)]);
}

#[test]
fn cond_on_razed_node_cannot_build() {
    let log = log();
    let calls = Rc::new(Cell::new(0));
    let mut world: Store<bool> = Store::new();
    let root = world.spawn_empty();
    let node = world.spawn_child(root).unwrap();
    let (_flag, mut view) = flag_cond(&mut world, root, false, &log, &calls);
    world.despawn_recursive(node);
    assert_eq!(view.build(node, &mut world), Err(ReactorError::MissingDependency));
    assert_eq!(view.active_branch(), None);
    assert!(entries(&log).is_empty());
}

#[test]
fn cond_with_a_flag_cell_as_test() {
    let log = log();
    let mut world: Store<bool> = Store::new();
    let root = world.spawn_empty();
    let node = world.spawn_child(root).unwrap();
    let flag = create_mutable(&mut world, root, FLAG, true).unwrap();
    let (pos_log, neg_log) = (log.clone(), log.clone());
    let mut view = Cond::new(
        FlagTest { cell: flag },
        move || Leaf::new("yes", &pos_log),
        move || Leaf::new("no", &neg_log),
    );
    view.build(node, &mut world).unwrap();
    assert_eq!(view.active_branch(), Some(true));
    world.despawn_recursive(flag.cell);
    let mut scope = TrackingScope::new(world.change_tick());
    assert_eq!(ReactiveView::react(&mut view, node, &mut world, &mut scope), Ok(()));
    assert_eq!(view.active_branch(), Some(false));
    assert!(scope.contains(flag.dependency()));
    assert_eq!(entries(&log), vec!["build yes on 3", "raze yes on 3", "build no on 4"]);
}

#[test]
fn empty_view_shows_nothing_and_razes_its_node() {
    let mut world: Store<bool> = Store::new();
    let root = world.spawn_empty();
    let node = world.spawn_child(root).unwrap();
    let mut view = ();
    assert_eq!(ReactiveView::<bool>::build(&mut view, node, &mut world), Ok(()));
    assert_eq!(flat(&ReactiveView::<bool>::nodes(&view)), Vec::<usize>::new());
    let mut scope = TrackingScope::new(0);
    assert_eq!(ReactiveView::<bool>::react(&mut view, node, &mut world, &mut scope), Ok(()));
    assert_eq!(world.len(), 2);
    assert_eq!(ReactiveView::<bool>::raze(&mut view, node, &mut world), Ok(()));
    assert!(!world.is_alive(node));
    assert!(world.is_alive(root));
}

#[test]
fn branch_helpers() {
    let log = log();
    let mut world: Store<bool> = Store::new();
    let root = world.spawn_empty();
    let factory = || Leaf::with_children("X", &log, 1);
    let (made, res) = build_branch_state(&factory, root, &mut world);
    assert_eq!(res, Ok(()));
    let (view, node) = made.unwrap();
    assert_eq!(node, 1);
    assert_eq!(world.len(), 3);
    assert!(world.take_display_changed(root));
    assert_eq!(raze_branch(view, node, &mut world), Ok(()));
    assert!(!world.is_alive(1));
    assert!(!world.is_alive(2));
    assert!(world.is_alive(root));
    let (none, res) = build_branch_state(&factory, node, &mut world);
    assert!(none.is_none());
    assert_eq!(res, Err(ReactorError::MissingDependency));

    let state: CondState<Leaf, Leaf> = CondState::Unset;
    assert_eq!(state.active_branch(), None);
    assert_eq!(state.active_node(), None);
    let state: CondState<Leaf, Leaf> = CondState::True((Leaf::new("T", &log), 5));
    assert_eq!(state.active_branch(), Some(true));
    assert_eq!(state.active_node(), Some(5));
    let state: CondState<Leaf, Leaf> = CondState::False((Leaf::new("F", &log), 6));
    assert_eq!(state.active_branch(), Some(false));
    assert_eq!(state.active_node(), Some(6));
}

#[test]
fn flag_scenario_under_the_driver() {
    let log = log();
    let calls = Rc::new(Cell::new(0));
    let mut world: Store<bool> = Store::new();
    let root = world.spawn_empty();
    let node = world.spawn_child(root).unwrap();
    let (flag, mut view) = flag_cond(&mut world, root, false, &log, &calls);

    view.build(node, &mut world).unwrap();
    assert_eq!(view.active_branch(), Some(false));
    let view_b = view.active_node().unwrap();
    assert_eq!(entries(&log), vec![format!("build ViewB on {}", view_b)]);

    let mut table = ReactionTable::new();
    table.insert(node, ReactionCell::new(view));
    table.run_reactions(&mut world);
    assert_eq!(calls.get(), 1);

    log.borrow_mut().clear();
    flag.set(&mut world, true).unwrap();
    table.run_reactions(&mut world);
    let view_a = table.cell_at(0).unwrap().0.active_node().unwrap();
    assert_eq!(table.cell_at(0).unwrap().0.active_branch(), Some(true));
    assert_eq!(
        entries(&log),
        vec![format!("raze ViewB on {}", view_b), format!("build ViewA on {}", view_a)]
    );
    assert!(!world.is_alive(view_b));
    assert!(world.is_alive(view_a));
    assert_eq!(calls.get(), 2);
    assert_eq!(table.last_result(0), Ok(()));

    log.borrow_mut().clear();
    let len = world.len();
    flag.set(&mut world, true).unwrap();
    assert!(world.is_stale(node));
    table.run_reactions(&mut world);
    assert_eq!(calls.get(), 3);
    assert_eq!(table.cell_at(0).unwrap().0.active_branch(), Some(true));
    assert_eq!(table.cell_at(0).unwrap().0.active_node(), Some(view_a));
    assert!(entries(&log).is_empty());
    assert_eq!(world.len(), len);

    table.run_reactions(&mut world);
    assert_eq!(calls.get(), 3);
}
