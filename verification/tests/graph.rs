use dialogue_graph::condition::{And, Condition, Function, Not, Or, True};
use dialogue_graph::{DialogueGraph, Edge};
use std::cell::Cell;

/// Conditions of several shapes behind one type, so that one graph can hold
/// them side by side.
#[derive(Debug, PartialEq)]
enum Gate {
    Always(True),
    Never(Not<True>),
    Both(And<True, True>),
    Either(Or<True, True>),
}

impl Condition for Gate {
    fn evaluate(&self) -> bool {
        match self {
            Gate::Always(condition) => condition.evaluate(),
            Gate::Never(condition) => condition.evaluate(),
            Gate::Both(condition) => condition.evaluate(),
            Gate::Either(condition) => condition.evaluate(),
        }
    }
}

fn always() -> Edge<Gate> {
    Edge::new(Gate::Always(True::new()))
}

fn never() -> Edge<Gate> {
    Edge::new(Gate::Never(Not::new(True::new())))
}

/// An open edge that carries a number to tell it from the others.
#[derive(Debug, PartialEq)]
struct Tagged(u32);

impl Condition for Tagged {
    fn evaluate(&self) -> bool {
        true
    }
}

#[test]
fn a_new_graph_is_empty() {
    let graph = DialogueGraph::<True>::new();
    assert_eq!(graph.node_count(), 0);
    assert_eq!(graph.edge_count(), 0);
    assert_eq!(graph.node_weight(0), None);
    assert!(graph.edge_weight(0).is_none());
    assert_eq!(graph.edge_endpoints(0), None);
    assert!(graph.open_edges(0).next().is_none());
}

#[test]
fn nodes_and_edges_are_numbered_as_they_are_added() {
    let mut graph = DialogueGraph::<Gate>::new();
    assert_eq!(graph.add_node("A".to_owned()), 0);
    assert_eq!(graph.add_node("B".to_owned()), 1);
    assert_eq!(graph.add_node("A".to_owned()), 2);
    assert_eq!(graph.node_count(), 3);
    assert_eq!(graph.add_edge(0, 1, always()), 0);
    assert_eq!(graph.add_edge(1, 2, never()), 1);
    assert_eq!(graph.add_edge(0, 1, never()), 2);
    assert_eq!(graph.edge_count(), 3);
    assert_eq!(graph.node_weight(0), Some(&"A".to_owned()));
    assert_eq!(graph.node_weight(1), Some(&"B".to_owned()));
    assert_eq!(graph.node_weight(2), Some(&"A".to_owned()));
    assert_eq!(graph.node_weight(3), None);
    assert_eq!(graph.edge_endpoints(0), Some((0, 1)));
    assert_eq!(graph.edge_endpoints(1), Some((1, 2)));
    assert_eq!(graph.edge_endpoints(2), Some((0, 1)));
    assert_eq!(graph.edge_endpoints(3), None);
    assert_eq!(graph.edge_weight(0), Some(&always()));
    assert_eq!(graph.edge_weight(1), Some(&never()));
    assert_eq!(graph.edge_weight(2), Some(&never()));
    assert!(graph.edge_weight(3).is_none());
}

#[test]
fn an_edge_keeps_its_condition() {
    let edge = Edge::new(Not::new(True::new()));
    assert_eq!(edge.condition, Not::new(True::new()));
    assert_eq!(edge, Edge::new(Not::new(True::new())));
}

#[test]
fn open_evaluates_the_condition_of_the_edge() {
    assert_eq!(DialogueGraph::open(Edge::new(True::new())), true);
    assert_eq!(DialogueGraph::open(Edge::new(Not::new(True::new()))), false);
    assert_eq!(DialogueGraph::open(Edge::new(Function::new(3, |x: &i32| *x == 3))), true);
}

#[test]
fn closed_is_the_opposite_of_open() {
    assert_eq!(DialogueGraph::closed(Edge::new(True::new())), false);
    assert_eq!(DialogueGraph::closed(Edge::new(Not::new(True::new()))), true);
    assert_eq!(
        DialogueGraph::closed(always()),
        !DialogueGraph::open(always())
    );
    assert_eq!(DialogueGraph::closed(never()), !DialogueGraph::open(never()));
}

#[test]
fn of_two_parallel_edges_only_the_open_one_is_yielded() {
    let mut graph = DialogueGraph::new();
    let a = graph.add_node("A".to_owned());
    let b = graph.add_node("B".to_owned());
    let open = graph.add_edge(a, b, always());
    graph.add_edge(a, b, never());
    let mut edges = graph.open_edges(a);
    let first = edges.next().unwrap();
    assert!(std::ptr::eq(first, graph.edge_weight(open).unwrap()));
    assert_eq!(first, &always());
    assert!(edges.next().is_none());
    assert_eq!(graph.open_edges(a).collect().len(), 1);
}

#[test]
fn next_returns_the_open_edge_and_then_nothing() {
    let mut graph = DialogueGraph::new();
    let a = graph.add_node("A".to_owned());
    let b = graph.add_node("B".to_owned());
    let c = graph.add_node("C".to_owned());
    let to_b = graph.add_edge(a, b, always());
    let to_c = graph.add_edge(a, c, never());
    let mut edges = graph.open_edges(a);
    let first = edges.next().unwrap();
    assert!(std::ptr::eq(first, graph.edge_weight(to_b).unwrap()));
    assert!(!std::ptr::eq(first, graph.edge_weight(to_c).unwrap()));
    assert!(edges.next().is_none());
    assert!(edges.next().is_none());
}

#[test]
fn edges_are_met_newest_first() {
    let mut graph = DialogueGraph::new();
    let a = graph.add_node("A".to_owned());
    let b = graph.add_node("B".to_owned());
    graph.add_edge(a, b, Edge::new(Tagged(10)));
    graph.add_edge(b, a, Edge::new(Tagged(20)));
    graph.add_edge(a, a, Edge::new(Tagged(30)));
    graph.add_edge(a, b, Edge::new(Tagged(40)));
    let mut edges = graph.open_edges(a);
    assert_eq!(edges.next(), Some(&Edge::new(Tagged(40))));
    assert_eq!(edges.next(), Some(&Edge::new(Tagged(30))));
    assert_eq!(edges.next(), Some(&Edge::new(Tagged(10))));
    assert_eq!(edges.next(), None);
    let mut edges = graph.open_edges(b);
    assert_eq!(edges.next(), Some(&Edge::new(Tagged(20))));
    assert_eq!(edges.next(), None);
}

#[test]
fn the_order_is_the_same_at_every_query() {
    let mut graph = DialogueGraph::new();
    let a = graph.add_node("A".to_owned());
    let b = graph.add_node("B".to_owned());
    for tag in 0..5 {
        graph.add_edge(a, b, Edge::new(Tagged(tag)));
    }
    let first = graph.open_edges(a).collect();
    let second = graph.open_edges(a).collect();
    assert_eq!(first, second);
    let tags: Vec<u32> = first.iter().map(|edge| edge.condition.0).collect();
    assert_eq!(tags, vec![4, 3, 2, 1, 0]);
}

#[test]
fn closed_edges_are_passed_over_and_the_order_is_kept() {
    let mut graph = DialogueGraph::new();
    let a = graph.add_node("A".to_owned());
    let b = graph.add_node("B".to_owned());
    let picks = [true, false, false, true, true, false];
    for (tag, open) in picks.iter().enumerate() {
        let tag = tag as u32;
        graph.add_edge(a, b, Edge::new(Function::new((tag, *open), |data: &(u32, bool)| data.1)));
    }
    let open = graph.open_edges(a).collect();
    let tags: Vec<u32> = open.iter().map(|edge| edge.condition.data.0).collect();
    assert_eq!(tags, vec![4, 3, 0]);
    assert!(open.len() <= picks.len());
    let mut edges = graph.open_edges(a);
    let mut met = Vec::new();
    while let Some(edge) = edges.next() {
        assert!(edge.condition.evaluate());
        met.push(edge.condition.data.0);
    }
    assert_eq!(met, vec![4, 3, 0]);
}

#[test]
fn a_node_without_edges_yields_nothing() {
    let mut graph = DialogueGraph::new();
    let a = graph.add_node("A".to_owned());
    let b = graph.add_node("B".to_owned());
    graph.add_edge(a, b, always());
    assert!(graph.open_edges(b).next().is_none());
    assert!(graph.open_edges(b).collect().is_empty());
}

#[test]
fn an_index_that_is_no_node_yields_nothing() {
    let mut graph = DialogueGraph::new();
    let a = graph.add_node("A".to_owned());
    graph.add_edge(a, a, always());
    assert!(graph.open_edges(1).next().is_none());
    assert!(graph.open_edges(u32::MAX).next().is_none());
}

#[test]
fn conditions_are_evaluated_only_as_far_as_asked() {
    let older = Cell::new(0u32);
    let newer = Cell::new(0u32);
    let count = |calls: &&Cell<u32>| {
        calls.set(calls.get() + 1);
        true
    };
    let mut graph = DialogueGraph::new();
    let a = graph.add_node("A".to_owned());
    let b = graph.add_node("B".to_owned());
    graph.add_edge(a, b, Edge::new(Function::new(&older, count)));
    graph.add_edge(a, b, Edge::new(Function::new(&newer, count)));
    let mut edges = graph.open_edges(a);
    assert_eq!((newer.get(), older.get()), (0, 0));
    assert!(edges.next().is_some());
    assert_eq!((newer.get(), older.get()), (1, 0));
    assert!(edges.next().is_some());
    assert_eq!((newer.get(), older.get()), (1, 1));
    assert!(edges.next().is_none());
    assert_eq!((newer.get(), older.get()), (1, 1));
}

#[test]
fn a_fresh_query_evaluates_the_conditions_again() {
    let allowed = Cell::new(false);
    let mut graph = DialogueGraph::new();
    let a = graph.add_node("A".to_owned());
    let b = graph.add_node("B".to_owned());
    graph.add_edge(a, b, Edge::new(Function::new(&allowed, |allowed: &&Cell<bool>| allowed.get())));
    assert!(graph.open_edges(a).next().is_none());
    allowed.set(true);
    assert!(graph.open_edges(a).next().is_some());
    allowed.set(false);
    assert!(graph.open_edges(a).next().is_none());
}

fn two_nodes_one_edge(edge: Edge<Gate>) -> DialogueGraph<Gate> {
    let mut graph = DialogueGraph::new();
    let a = graph.add_node("A".to_owned());
    let b = graph.add_node("B".to_owned());
    graph.add_edge(a, b, edge);
    graph
}

#[test]
fn graphs_built_alike_are_equal() {
    assert_eq!(DialogueGraph::<True>::new(), DialogueGraph::<True>::new());
    assert_eq!(two_nodes_one_edge(always()), two_nodes_one_edge(always()));
    let graph = two_nodes_one_edge(never());
    assert!(graph == graph);
}

#[test]
fn trees_of_different_shape_make_graphs_unequal() {
    let both = Edge::new(Gate::Both(And::new(True::new(), True::new())));
    let either = Edge::new(Gate::Either(Or::new(True::new(), True::new())));
    assert_eq!(both.condition.evaluate(), true);
    assert_eq!(either.condition.evaluate(), true);
    assert_ne!(two_nodes_one_edge(both), two_nodes_one_edge(either));
}

#[test]
fn graphs_differ_by_node_content() {
    let mut one = DialogueGraph::<True>::new();
    one.add_node("A".to_owned());
    let mut other = DialogueGraph::<True>::new();
    other.add_node("B".to_owned());
    assert_ne!(one, other);
    other.add_node("A".to_owned());
    assert_ne!(one, other);
    assert_ne!(one, DialogueGraph::new());
}

#[test]
fn graphs_differ_by_the_ends_of_an_edge() {
    let mut one = DialogueGraph::new();
    one.add_node("A".to_owned());
    one.add_node("B".to_owned());
    let mut other = DialogueGraph::new();
    other.add_node("A".to_owned());
    other.add_node("B".to_owned());
    one.add_edge(0, 1, always());
    other.add_edge(1, 0, always());
    assert_ne!(one, other);
}

#[test]
fn equality_is_positional() {
    let mut one = DialogueGraph::new();
    one.add_node("A".to_owned());
    one.add_node("B".to_owned());
    one.add_edge(0, 1, always());
    one.add_edge(1, 0, never());
    let mut other = DialogueGraph::new();
    other.add_node("A".to_owned());
    other.add_node("B".to_owned());
    other.add_edge(1, 0, never());
    other.add_edge(0, 1, always());
    assert_ne!(one, other);
    let mut swapped = DialogueGraph::new();
    swapped.add_node("B".to_owned());
    swapped.add_node("A".to_owned());
    swapped.add_edge(1, 0, always());
    swapped.add_edge(0, 1, never());
    assert_ne!(one, swapped);
}

#[test]
fn nodes_of_equal_content_are_different_nodes() {
    let mut graph = DialogueGraph::new();
    let first = graph.add_node("A".to_owned());
    let second = graph.add_node("A".to_owned());
    assert_ne!(first, second);
    graph.add_edge(first, second, always());
    assert!(graph.open_edges(first).next().is_some());
    assert!(graph.open_edges(second).next().is_none());
}

#[test]
fn a_graph_is_made_of_its_parts() {
    let nodes = vec!["A".to_owned(), "B".to_owned(), "C".to_owned()];
    let ends = vec![(0, 1), (0, 2), (2, 0)];
    let edges = vec![always(), never(), always()];
    let graph = DialogueGraph::from_parts(nodes, ends, edges).unwrap();
    assert_eq!(graph.node_count(), 3);
    assert_eq!(graph.edge_count(), 3);
    assert_eq!(graph.node_weight(2), Some(&"C".to_owned()));
    assert_eq!(graph.edge_endpoints(1), Some((0, 2)));
    assert_eq!(graph.edge_weight(1), Some(&never()));
    let mut built = DialogueGraph::new();
    built.add_node("A".to_owned());
    built.add_node("B".to_owned());
    built.add_node("C".to_owned());
    built.add_edge(0, 1, always());
    built.add_edge(0, 2, never());
    built.add_edge(2, 0, always());
    assert_eq!(graph, built);
    let mut edges = graph.open_edges(0);
    assert!(std::ptr::eq(edges.next().unwrap(), graph.edge_weight(0).unwrap()));
    assert!(edges.next().is_none());
}

#[test]
fn parts_that_make_no_graph_are_refused() {
    let nodes = || vec!["A".to_owned(), "B".to_owned()];
    assert!(DialogueGraph::from_parts(nodes(), vec![(0, 2)], vec![always()]).is_none());
    assert!(DialogueGraph::from_parts(nodes(), vec![(2, 0)], vec![always()]).is_none());
    assert!(DialogueGraph::<Gate>::from_parts(nodes(), vec![(0, 1)], vec![]).is_none());
    assert!(DialogueGraph::from_parts(nodes(), vec![], vec![always()]).is_none());
    assert!(DialogueGraph::from_parts(vec![], vec![(0, 0)], vec![always()]).is_none());
    assert!(DialogueGraph::<Gate>::from_parts(vec![], vec![], vec![]).is_some());
    assert!(DialogueGraph::from_parts(nodes(), vec![(1, 1)], vec![always()]).is_some());
}

#[test]
fn a_graph_taken_apart_and_made_again_is_equal() {
    let mut graph = DialogueGraph::new();
    let a = graph.add_node("A".to_owned());
    let b = graph.add_node("B".to_owned());
    graph.add_edge(a, b, Edge::new(Or::new(Not::new(True::new()), And::new(True::new(), True::new()))));
    graph.add_edge(b, a, Edge::new(Or::new(Not::new(True::new()), And::new(True::new(), True::new()))));
    let mut same = DialogueGraph::new();
    same.add_node("A".to_owned());
    same.add_node("B".to_owned());
    same.add_edge(a, b, Edge::new(Or::new(Not::new(True::new()), And::new(True::new(), True::new()))));
    same.add_edge(b, a, Edge::new(Or::new(Not::new(True::new()), And::new(True::new(), True::new()))));
    let (nodes, ends, edges) = graph.into_parts();
    assert_eq!(nodes, vec!["A".to_owned(), "B".to_owned()]);
    assert_eq!(ends, vec![(0, 1), (1, 0)]);
    assert_eq!(edges.len(), 2);
    let again = DialogueGraph::from_parts(nodes, ends, edges).unwrap();
    assert_eq!(again, same);
}
