//! The directed-graph store behind a dialogue graph.
//!
//! Adjacency is kept by `petgraph`. The store holds the shape of the graph
//! only: nodes and edges carry no payload there and are known by the indices
//! that `petgraph` hands out, which count up from zero as long as nothing is
//! removed. Nothing in this module is proved; each contract restates what
//! `petgraph`'s `Graph` does.

use petgraph::graph::{EdgeIndex, Graph, NodeIndex};
use petgraph::visit::EdgeRef;
use petgraph::Directed;
use vstd::prelude::*;

verus! {

/// `petgraph::graph::Graph`, opaque to the verifier.
#[verifier::external_type_specification]
#[verifier::external_body]
#[verifier::reject_recursive_types(N)]
#[verifier::reject_recursive_types(E)]
#[verifier::reject_recursive_types(Ty)]
#[verifier::reject_recursive_types(Ix)]
pub struct ExGraph<N, E, Ty, Ix>(Graph<N, E, Ty, Ix>);

/// `petgraph::Directed`, the marker for graphs with directed edges.
#[verifier::external_type_specification]
#[verifier::external_body]
pub struct ExDirected(Directed);

/// A directed `petgraph` graph without weights, indexed by `u32`.
pub type Store = Graph<(), (), Directed, u32>;

/// The edge list of the store: for each edge index, the indices of its source
/// and target nodes.
pub uninterp spec fn store_links(store: Store) -> Seq<(int, int)>;

/// The adjacency lists of the store: for each node index, the indices of the
/// edges that `Graph::edges` yields for that node, in the order in which it
/// yields them.
pub uninterp spec fn store_outgoing(store: Store) -> Seq<Seq<int>>;

/// `Graph::new`: a graph with no nodes and no edges.
#[verifier::external_body]
pub(crate) fn store_new() -> (store: Store)
    ensures
        store_links(store) == Seq::<(int, int)>::empty(),
        store_outgoing(store) == Seq::<Seq<int>>::empty(),
{
    Graph::new()
}

/// `Graph::add_node`: appends a node without edges and returns its index,
/// which is the number of nodes before the call. No edge changes.
///
/// `petgraph` panics when the new index would be `u32::MAX`.
#[verifier::external_body]
pub(crate) fn store_add_node(store: &mut Store) -> (index: u32)
    requires
        store_outgoing(*old(store)).len() < u32::MAX,
    ensures
        index == store_outgoing(*old(store)).len(),
        store_outgoing(*final(store)) == store_outgoing(*old(store)).push(Seq::empty()),
        store_links(*final(store)) == store_links(*old(store)),
{
    store.add_node(()).index() as u32
}

/// `Graph::add_edge`: appends an edge from `source` to `target` and returns its
/// index, which is the number of edges before the call. The new edge becomes
/// the head of the list of edges that leave `source`; the lists of the other
/// nodes stay as they were.
///
/// `petgraph` panics when an endpoint is not a node of the graph, or when the
/// new index would be `u32::MAX`.
#[verifier::external_body]
pub(crate) fn store_add_edge(store: &mut Store, source: u32, target: u32) -> (index: u32)
    requires
        source < store_outgoing(*old(store)).len(),
        target < store_outgoing(*old(store)).len(),
        store_links(*old(store)).len() < u32::MAX,
    ensures
        index == store_links(*old(store)).len(),
        store_links(*final(store)) == store_links(*old(store)).push((source as int, target as int)),
        store_outgoing(*final(store)) == store_outgoing(*old(store)).update(
            source as int,
            seq![index as int] + store_outgoing(*old(store))[source as int],
        ),
{
    store.add_edge(NodeIndex::from(source), NodeIndex::from(target), ()).index() as u32
}

/// `Graph::edges`: the indices of the edges that leave `node`, in the order in
/// which the iterator yields them; none for an index that is not a node of
/// the graph.
#[verifier::external_body]
pub(crate) fn store_edges(store: &Store, node: u32) -> (out: Vec<u32>)
    ensures
        out@.map_values(|edge: u32| edge as int) == if node < store_outgoing(*store).len() {
            store_outgoing(*store)[node as int]
        } else {
            Seq::<int>::empty()
        },
{
    store.edges(NodeIndex::from(node)).map(|edge| edge.id().index() as u32).collect()
}

/// `Graph::edge_endpoints`: the source and target of the edge at index `edge`,
/// or `None` for an index that is not an edge of the graph.
#[verifier::external_body]
pub(crate) fn store_endpoints(store: &Store, edge: u32) -> (ends: Option<(u32, u32)>)
    ensures
        match ends {
            Some((source, target)) => {
                &&& edge < store_links(*store).len()
                &&& store_links(*store)[edge as int] == (source as int, target as int)
            },
            None => edge >= store_links(*store).len(),
        },
{
    match store.edge_endpoints(EdgeIndex::from(edge)) {
        Some((source, target)) => Some((source.index() as u32, target.index() as u32)),
        None => None,
    }
}

} // verus!
