//! Dialogue graph
//!
//! A dialogue graph holds units of dialogue, the nodes, and directed edges
//! between them. Each edge carries a [`Condition`] that says whether the edge
//! may be traversed at the moment. [`DialogueGraph::open_edges`] answers, for a
//! node, which of the edges that leave it are open: it examines them one at a
//! time, the most recently added first, and evaluates a condition only when
//! the caller asks for the next open edge.
//!
//! Which edges leave a node, and in which order, is kept by `petgraph`; see
//! [`store`]. What the nodes and edges carry is kept here, at the indices
//! that the store hands out.

use crate::condition::{decided, exact_eq, Condition};
use crate::store::{
    store_add_edge, store_add_node, store_edges, store_endpoints, store_links, store_new,
    store_outgoing, Store,
};
use crate::traversal::{
    departures, lemma_departures, lemma_departures_after_push, lemma_departures_of_sink,
    may_all_be_closed, scannable, selects, yields,
};
use vstd::prelude::*;
use vstd::std_specs::cmp::PartialEqSpec;

/// Conditions
pub mod condition;
/// The field rules of the wire format
pub mod decode;
/// The directed-graph store
pub mod store;
/// Traversals, stated over sequences
pub mod traversal;

verus! {

/// A single unit of dialogue which makes up the `DialogueGraph`.
pub type Node = String;

/// The position of a node in a `DialogueGraph`, counted from zero in the
/// order in which the nodes were added.
pub type NodeIndex = u32;

/// The position of an edge in a `DialogueGraph`, counted from zero in the
/// order in which the edges were added.
pub type EdgeIndex = u32;

/// A directed connection between two `Node` objects, with a condition that
/// predicates the ability to traverse it.
#[derive(Debug, Eq)]
pub struct Edge<T> where T: Condition {
    /// The condition for traversing.
    pub condition: T,
}

impl<T> Edge<T> where T: Condition {
    /// Create a new edge.
    pub fn new(condition: T) -> (edge: Self)
        ensures
            edge == (Edge { condition }),
    {
        Self { condition }
    }
}

impl<T> PartialEq for Edge<T> where T: Condition + PartialEq {
    fn eq(&self, other: &Self) -> (equal: bool) {
        self.condition == other.condition
    }
}

impl<T> vstd::std_specs::cmp::PartialEqSpecImpl for Edge<T> where T: Condition + PartialEq {
    open spec fn obeys_eq_spec() -> bool {
        T::obeys_eq_spec()
    }

    open spec fn eq_spec(&self, other: &Self) -> bool {
        self.condition.eq_spec(&other.condition)
    }
}

/// What a `DialogueGraph` holds: the content of its nodes, and for each edge
/// its two endpoints and its weight. Nodes and edges stand at their indices.
pub struct GraphView<T> where T: Condition {
    /// The content of each node.
    pub nodes: Seq<Seq<char>>,
    /// The source and the target of each edge.
    pub ends: Seq<(int, int)>,
    /// The weight of each edge.
    pub edges: Seq<Edge<T>>,
}

impl<T> GraphView<T> where T: Condition {
    /// Every edge has a weight and joins two nodes of the graph, and the
    /// indices fit the store.
    pub open spec fn wf(self) -> bool {
        &&& self.nodes.len() <= u32::MAX
        &&& self.edges.len() <= u32::MAX
        &&& self.ends.len() == self.edges.len()
        &&& forall|i: int|
            0 <= i < self.ends.len() ==> {
                &&& 0 <= (#[trigger] self.ends[i]).0 < self.nodes.len()
                &&& 0 <= self.ends[i].1 < self.nodes.len()
            }
    }

    /// The edges that leave `node`, in the order in which a traversal meets
    /// them: the most recently added first.
    pub open spec fn outgoing(self, node: int) -> Seq<Edge<T>> {
        departures(self.ends, node).map_values(|edge: int| self.edges[edge])
    }

    /// What a graph made of the given parts holds.
    pub open spec fn of(
        nodes: Seq<Node>,
        ends: Seq<(NodeIndex, NodeIndex)>,
        edges: Seq<Edge<T>>,
    ) -> Self {
        GraphView {
            nodes: nodes.map_values(|node: Node| node@),
            ends: ends.map_values(|pair: (NodeIndex, NodeIndex)| (pair.0 as int, pair.1 as int)),
            edges,
        }
    }
}

impl<T> GraphView<T> where T: Condition + PartialEq {
    /// Positional equality: the same node contents in the same order, and
    /// edge by edge the same source, the same target and equal conditions.
    /// Conditions are compared as `T`'s own `==` compares them.
    pub open spec fn positional_eq(self, other: Self) -> bool {
        &&& self.nodes == other.nodes
        &&& self.ends == other.ends
        &&& self.edges.len() == other.edges.len()
        &&& forall|i: int|
            0 <= i < self.edges.len() ==> (#[trigger] self.edges[i]).eq_spec(&other.edges[i])
    }
}

/// A dialogue graph consisting of dialogue nodes connected by conditional
/// edges.
#[derive(Debug)]
pub struct DialogueGraph<T> where T: Condition {
    /// The content of the nodes, by node index.
    nodes: Vec<Node>,
    /// The weights of the edges, by edge index.
    edges: Vec<Edge<T>>,
    /// The underlying graph.
    store: Store,
}

impl<T> View for DialogueGraph<T> where T: Condition {
    type V = GraphView<T>;

    closed spec fn view(&self) -> GraphView<T> {
        GraphView {
            nodes: self.nodes@.map_values(|node: Node| node@),
            ends: store_links(self.store),
            edges: self.edges@,
        }
    }
}

impl<T> DialogueGraph<T> where T: Condition {
    #[verifier::type_invariant]
    spec fn inv(self) -> bool {
        &&& self@.wf()
        &&& store_outgoing(self.store).len() == self.nodes.len()
        &&& forall|node: int|
            0 <= node < self.nodes.len() ==> #[trigger] store_outgoing(self.store)[node]
                == departures(store_links(self.store), node)
    }

    /// Create a new DialogueGraph instance.
    pub fn new() -> (graph: Self)
        ensures
            graph@.wf(),
            graph@.nodes == Seq::<Seq<char>>::empty(),
            graph@.ends == Seq::<(int, int)>::empty(),
            graph@.edges == Seq::<Edge<T>>::empty(),
    {
        Self { nodes: Vec::new(), edges: Vec::new(), store: store_new() }
    }

    /// Makes a graph of its parts: the content of each node, and the two
    /// endpoints and the weight of each edge.
    ///
    /// Returns `None` where the parts make no graph: an edge lacks its
    /// endpoints or its weight, an endpoint is no node, or there are more
    /// nodes or edges than the indices can tell apart.
    pub fn from_parts(
        nodes: Vec<Node>,
        ends: Vec<(NodeIndex, NodeIndex)>,
        edges: Vec<Edge<T>>,
    ) -> (graph: Option<Self>)
        ensures
            match graph {
                Some(graph) => graph@ == GraphView::of(nodes@, ends@, edges@) && graph@.wf(),
                None => !GraphView::of(nodes@, ends@, edges@).wf(),
            },
    {
        let ghost whole = GraphView::of(nodes@, ends@, edges@);
        if nodes.len() > u32::MAX as usize || edges.len() > u32::MAX as usize || ends.len()
            != edges.len() {
            return None;
        }
        let mut store = store_new();
        let mut node: usize = 0;
        while node < nodes.len()
            invariant
                node <= nodes.len() <= u32::MAX,
                store_links(store) == Seq::<(int, int)>::empty(),
                store_outgoing(store).len() == node,
                forall|at: int|
                    0 <= at < node ==> #[trigger] store_outgoing(store)[at] == Seq::<int>::empty(),
            decreases nodes.len() - node,
        {
            store_add_node(&mut store);
            node = node + 1;
        }
        let mut edge: usize = 0;
        while edge < ends.len()
            invariant
                edge <= ends.len() == edges.len() <= u32::MAX,
                nodes.len() <= u32::MAX,
                whole == GraphView::of(nodes@, ends@, edges@),
                store_links(store) == whole.ends.take(edge as int),
                store_outgoing(store).len() == nodes.len(),
                forall|i: int|
                    0 <= i < edge ==> {
                        &&& 0 <= (#[trigger] whole.ends[i]).0 < nodes.len()
                        &&& 0 <= whole.ends[i].1 < nodes.len()
                    },
                forall|at: int|
                    0 <= at < nodes.len() ==> #[trigger] store_outgoing(store)[at] == departures(
                        store_links(store),
                        at,
                    ),
            decreases ends.len() - edge,
        {
            let (source, target) = ends[edge];
            assert(whole.ends[edge as int] == (source as int, target as int));
            if source as usize >= nodes.len() || target as usize >= nodes.len() {
                return None;
            }
            let ghost links = store_links(store);
            store_add_edge(&mut store, source, target);
            proof {
                assert(whole.ends.take(edge + 1) == links.push((source as int, target as int)));
                assert forall|at: int| 0 <= at < nodes.len() implies #[trigger] store_outgoing(
                    store,
                )[at] == departures(store_links(store), at) by {
                    lemma_departures_after_push(links, (source as int, target as int), at);
                }
            }
            edge = edge + 1;
        }
        assert(whole.ends.take(edge as int) == whole.ends);
        Some(DialogueGraph { nodes, edges, store })
    }

    /// Takes the graph apart: the content of each node, and the two endpoints
    /// and the weight of each edge. `from_parts` makes the same graph of them
    /// again.
    pub fn into_parts(self) -> (parts: (Vec<Node>, Vec<(NodeIndex, NodeIndex)>, Vec<Edge<T>>))
        ensures
            GraphView::of(parts.0@, parts.1@, parts.2@) == self@,
            self@.wf(),
    {
        proof {
            use_type_invariant(&self);
        }
        let ghost whole = self@;
        let DialogueGraph { nodes, edges, store } = self;
        let mut ends: Vec<(NodeIndex, NodeIndex)> = Vec::new();
        let mut edge: usize = 0;
        while edge < edges.len()
            invariant
                edge <= edges.len() <= u32::MAX,
                edges.len() == store_links(store).len(),
                whole.ends == store_links(store),
                ends.len() == edge,
                forall|i: int|
                    0 <= i < edge ==> whole.ends[i] == ((#[trigger] ends[i]).0 as int, ends[i].1 as int),
            decreases edges.len() - edge,
        {
            let pair = store_endpoints(&store, edge as u32).unwrap();
            ends.push(pair);
            edge = edge + 1;
        }
        assert(GraphView::<T>::of(nodes@, ends@, edges@).ends == whole.ends);
        (nodes, ends, edges)
    }

    /// The number of nodes in the graph.
    pub fn node_count(&self) -> (count: usize)
        ensures
            self@.wf(),
            count == self@.nodes.len(),
    {
        proof {
            use_type_invariant(self);
        }
        self.nodes.len()
    }

    /// The number of edges in the graph.
    pub fn edge_count(&self) -> (count: usize)
        ensures
            self@.wf(),
            count == self@.edges.len(),
    {
        proof {
            use_type_invariant(self);
        }
        self.edges.len()
    }

    /// Add a node with the given content to the graph and return its index.
    pub fn add_node(&mut self, content: Node) -> (index: NodeIndex)
        requires
            old(self)@.nodes.len() < u32::MAX,
        ensures
            final(self)@.wf(),
            index == old(self)@.nodes.len(),
            final(self)@.nodes == old(self)@.nodes.push(content@),
            final(self)@.ends == old(self)@.ends,
            final(self)@.edges == old(self)@.edges,
    {
        // The graph is taken out of `self` and put back whole, so that `self`
        // is a graph at every point in between.
        let mut taken = Self::new();
        core::mem::swap(self, &mut taken);
        proof {
            use_type_invariant(&taken);
        }
        let DialogueGraph { mut nodes, edges, mut store } = taken;
        let ghost before = nodes@;
        let index = store_add_node(&mut store);
        nodes.push(content);
        proof {
            assert(nodes@.map_values(|node: Node| node@) == before.map_values(|node: Node| node@).push(
                content@,
            ));
            lemma_departures_of_sink(store_links(store), index as int);
        }
        *self = DialogueGraph { nodes, edges, store };
        index
    }

    /// Add an edge from `source` to `target` to the graph and return its
    /// index.
    pub fn add_edge(&mut self, source: NodeIndex, target: NodeIndex, edge: Edge<T>) -> (index:
        EdgeIndex)
        requires
            source < old(self)@.nodes.len(),
            target < old(self)@.nodes.len(),
            old(self)@.edges.len() < u32::MAX,
        ensures
            final(self)@.wf(),
            index == old(self)@.edges.len(),
            final(self)@.nodes == old(self)@.nodes,
            final(self)@.ends == old(self)@.ends.push((source as int, target as int)),
            final(self)@.edges == old(self)@.edges.push(edge),
    {
        let mut taken = Self::new();
        core::mem::swap(self, &mut taken);
        proof {
            use_type_invariant(&taken);
        }
        let DialogueGraph { nodes, mut edges, mut store } = taken;
        let ghost ends = store_links(store);
        let index = store_add_edge(&mut store, source, target);
        edges.push(edge);
        proof {
            assert forall|node: int| 0 <= node < nodes.len() implies #[trigger] store_outgoing(
                store,
            )[node] == departures(store_links(store), node) by {
                lemma_departures_after_push(ends, (source as int, target as int), node);
            }
        }
        *self = DialogueGraph { nodes, edges, store };
        index
    }

    /// Access the content of the node at `index`, if there is such a node.
    pub fn node_weight(&self, index: NodeIndex) -> (content: Option<&Node>)
        ensures
            self@.wf(),
            match content {
                Some(node) => index < self@.nodes.len() && node@ == self@.nodes[index as int],
                None => index >= self@.nodes.len(),
            },
    {
        proof {
            use_type_invariant(self);
        }
        if (index as usize) < self.nodes.len() {
            Some(&self.nodes[index as usize])
        } else {
            None
        }
    }

    /// Access the weight of the edge at `index`, if there is such an edge.
    pub fn edge_weight(&self, index: EdgeIndex) -> (weight: Option<&Edge<T>>)
        ensures
            self@.wf(),
            match weight {
                Some(edge) => index < self@.edges.len() && *edge == self@.edges[index as int],
                None => index >= self@.edges.len(),
            },
    {
        proof {
            use_type_invariant(self);
        }
        if (index as usize) < self.edges.len() {
            Some(&self.edges[index as usize])
        } else {
            None
        }
    }

    /// Access the source and target nodes of the edge at `index`, if there
    /// is such an edge.
    pub fn edge_endpoints(&self, index: EdgeIndex) -> (ends: Option<(NodeIndex, NodeIndex)>)
        ensures
            self@.wf(),
            match ends {
                Some((source, target)) => index < self@.ends.len() && self@.ends[index as int] == (
                    source as int,
                    target as int,
                ),
                None => index >= self@.ends.len(),
            },
    {
        proof {
            use_type_invariant(self);
        }
        store_endpoints(&self.store, index)
    }

    /// Evaluates the condition to determine whether the edge can be traversed.
    pub fn open(edge: Edge<T>) -> (open: bool)
        requires
            edge.condition.evaluable(),
        ensures
            edge.condition.evaluates_to(open),
    {
        edge.condition.evaluate()
    }

    /// Opposite of `open`, evaluates the condition to determine whether the
    /// edge is closed off.
    pub fn closed(edge: Edge<T>) -> (closed: bool)
        requires
            edge.condition.evaluable(),
        ensures
            edge.condition.evaluates_to(!closed),
    {
        !DialogueGraph::open(edge)
    }

    /// Returns an iterator over the open edges connected to the given node
    /// index.
    pub fn open_edges<'a>(&'a self, node: NodeIndex) -> (open: OpenEdges<'a, T>)
        ensures
            self@.wf(),
            open.remaining() == self@.outgoing(node as int),
    {
        proof {
            use_type_invariant(self);
            lemma_departures(store_links(self.store), node as int);
            if node >= self.nodes.len() {
                lemma_departures_of_sink(store_links(self.store), node as int);
            }
        }
        let candidates = store_edges(&self.store, node);
        proof {
            let found = candidates@.map_values(|edge: u32| edge as int);
            assert(found == departures(store_links(self.store), node as int));
            assert forall|k: int| 0 <= k < candidates.len() implies (#[trigger] candidates[k])
                < self.edges.len() by {
                assert(found[k] == candidates[k]);
            }
            assert(candidates@.skip(0) == candidates@);
            assert(candidates@.map_values(|edge: u32| self.edges@[edge as int]) == found.map_values(
                |edge: int| self.edges@[edge],
            ));
        }
        OpenEdges { edges: &self.edges, candidates, cursor: 0 }
    }
}

impl<T> PartialEq for DialogueGraph<T> where T: Condition + PartialEq {
    /// Compare the two graphs' nodes and edges.
    fn eq(&self, other: &DialogueGraph<T>) -> (equal: bool) {
        proof {
            use_type_invariant(self);
            use_type_invariant(other);
        }
        if self.nodes.len() != other.nodes.len() || self.edges.len() != other.edges.len() {
            proof {
                if self.nodes.len() != other.nodes.len() {
                    assert(self@.nodes.len() != other@.nodes.len());
                }
            }
            return false;
        }
        let mut n: usize = 0;
        while n < self.nodes.len()
            invariant
                n <= self.nodes.len() == other.nodes.len(),
                forall|i: int| 0 <= i < n ==> (#[trigger] self.nodes[i])@ == other.nodes[i]@,
            decreases self.nodes.len() - n,
        {
            if !(self.nodes[n] == other.nodes[n]) {
                proof {
                    assert(self@.nodes[n as int] != other@.nodes[n as int]);
                }
                return false;
            }
            n = n + 1;
        }
        assert(self@.nodes == other@.nodes);
        let mut e: usize = 0;
        while e < self.edges.len()
            invariant
                e <= self.edges.len() == other.edges.len() <= u32::MAX,
                self@.wf(),
                other@.wf(),
                self@.nodes == other@.nodes,
                forall|i: int| 0 <= i < e ==> (#[trigger] self@.ends[i]) == other@.ends[i],
                forall|i: int|
                    0 <= i < e ==> T::obeys_eq_spec() ==> (#[trigger] self.edges[i]).eq_spec(
                        &other.edges[i],
                    ),
            decreases self.edges.len() - e,
        {
            let here = store_endpoints(&self.store, e as u32);
            let there = store_endpoints(&other.store, e as u32);
            let same_ends = match (here, there) {
                (Some((source, target)), Some((other_source, other_target))) => source
                    == other_source && target == other_target,
                _ => false,
            };
            if !same_ends {
                proof {
                    assert(self@.ends[e as int] != other@.ends[e as int]);
                }
                return false;
            }
            if !(self.edges[e] == other.edges[e]) {
                return false;
            }
            e = e + 1;
        }
        assert(self@.ends == other@.ends);
        true
    }
}

impl<T> vstd::std_specs::cmp::PartialEqSpecImpl for DialogueGraph<T> where T: Condition + PartialEq {
    open spec fn obeys_eq_spec() -> bool {
        T::obeys_eq_spec()
    }

    open spec fn eq_spec(&self, other: &DialogueGraph<T>) -> bool {
        self@.positional_eq(other@)
    }
}

/// Iterator over open edges leading out of a given node.
pub struct OpenEdges<'a, T> where T: Condition {
    /// The weights of the edges of the graph, by edge index.
    edges: &'a Vec<Edge<T>>,
    /// The edges that left the node when the iterator was made, in the
    /// store's order.
    candidates: Vec<EdgeIndex>,
    /// How many of the candidates have been examined.
    cursor: usize,
}

impl<'a, T> OpenEdges<'a, T> where T: Condition {
    #[verifier::type_invariant]
    spec fn inv(self) -> bool {
        &&& self.cursor <= self.candidates.len()
        &&& forall|k: int|
            0 <= k < self.candidates.len() ==> (#[trigger] self.candidates[k]) < self.edges.len()
    }

    /// The edges that the iterator has yet to examine, in the order in which
    /// it will examine them.
    pub closed spec fn remaining(&self) -> Seq<Edge<T>> {
        self.candidates@.skip(self.cursor as int).map_values(
            |edge: EdgeIndex| self.edges@[edge as int],
        )
    }

    /// Examines the remaining edges in order, evaluating the condition of
    /// each, until one is open, and returns that edge; `None` once every
    /// remaining edge has been found closed.
    pub fn next(&mut self) -> (next: Option<&'a Edge<T>>)
        requires
            scannable(old(self).remaining()),
        ensures
            yields(old(self).remaining(), next, final(self).remaining()),
    {
        proof {
            use_type_invariant(&*self);
        }
        let ghost before = self.remaining();
        let ghost start = self.cursor;
        let mut result = None;
        while self.cursor < self.candidates.len()
            invariant_except_break
                result is None,
                may_all_be_closed(before.take(self.cursor - start)),
                self.cursor == self.candidates.len() ==> before.take(self.cursor - start) == before
                    && self.remaining() == Seq::<Edge<T>>::empty(),
            invariant
                start <= self.cursor <= self.candidates.len(),
                self.candidates == old(self).candidates,
                self.edges == old(self).edges,
                before == self.candidates@.skip(start as int).map_values(
                    |edge: EdgeIndex| self.edges@[edge as int],
                ),
                forall|k: int|
                    0 <= k < self.candidates.len() ==> (#[trigger] self.candidates[k])
                        < self.edges.len(),
                scannable(before),
            ensures
                yields(before, result, self.remaining()),
            decreases self.candidates.len() - self.cursor,
        {
            let edge = &self.edges[self.candidates[self.cursor] as usize];
            let ghost passed = self.cursor - start;
            assert(before[passed] == *edge);
            self.cursor = self.cursor + 1;
            assert(self.remaining() == before.skip(passed + 1));
            if edge.condition.evaluate() {
                result = Some(edge);
                break ;
            }
            assert(may_all_be_closed(before.take(passed + 1))) by {
                assert forall|j: int| 0 <= j < passed + 1 implies (#[trigger] before.take(
                    passed + 1,
                )[j]).condition.evaluates_to(false) by {
                    if j < passed {
                        assert(before.take(passed)[j] == before[j]);
                    }
                }
            }
            if self.cursor == self.candidates.len() {
                assert(before.take(passed + 1) == before);
                assert(self.remaining() == Seq::<Edge<T>>::empty());
            }
        }
        result
    }

    /// Examines every remaining edge in order and returns those that were
    /// found open.
    pub fn collect(self) -> (open: Vec<&'a Edge<T>>)
        requires
            forall|i: int|
                0 <= i < self.remaining().len() ==> (#[trigger] self.remaining()[i]).condition.evaluable(),
        ensures
            selects(self.remaining(), open@.map_values(|edge: &Edge<T>| *edge)),
    {
        proof {
            use_type_invariant(&self);
        }
        let ghost before = self.remaining();
        let start = self.cursor;
        let mut open: Vec<&'a Edge<T>> = Vec::new();
        let mut at = start;
        while at < self.candidates.len()
            invariant
                start <= at <= self.candidates.len(),
                before == self.candidates@.skip(start as int).map_values(
                    |edge: EdgeIndex| self.edges@[edge as int],
                ),
                forall|k: int|
                    0 <= k < self.candidates.len() ==> (#[trigger] self.candidates[k])
                        < self.edges.len(),
                forall|i: int| 0 <= i < before.len() ==> (#[trigger] before[i]).condition.evaluable(),
                selects(before.take(at - start), open@.map_values(|edge: &Edge<T>| *edge)),
            decreases self.candidates.len() - at,
        {
            let edge = &self.edges[self.candidates[at] as usize];
            let ghost examined = before.take(at - start + 1);
            let ghost picked = open@.map_values(|edge: &Edge<T>| *edge);
            assert(before[at - start] == *edge);
            assert(examined.drop_last() == before.take(at - start));
            if edge.condition.evaluate() {
                open.push(edge);
                assert(open@.map_values(|edge: &Edge<T>| *edge).drop_last() == picked);
            }
            at = at + 1;
        }
        assert(before.take(at - start) == before);
        open
    }
}

/// `closed` answers the opposite of `open`: for an edge whose condition is
/// decided, whatever `open` returns and whatever `closed` returns are each
/// other's negation.
pub proof fn lemma_closed_negates_open<T: Condition>(edge: Edge<T>, open: bool, closed: bool)
    requires
        decided(edge.condition),
        edge.condition.evaluates_to(open),
        edge.condition.evaluates_to(!closed),
    ensures
        closed == !open,
{
}

/// Two edges are equal exactly when their conditions are the same tree.
pub proof fn lemma_exact_eq_edge<T: Condition + PartialEq>()
    requires
        exact_eq::<T>(),
    ensures
        exact_eq::<Edge<T>>(),
{
    assert forall|a: Edge<T>, b: Edge<T>| #[trigger] a.eq_spec(&b) <==> a == b by {
        assert(a.condition.eq_spec(&b.condition) <==> a.condition == b.condition);
    }
}

/// Equality of graphs is positional and structural: where `==` on the
/// conditions goes by the tree, two graphs are equal exactly when they hold
/// the same nodes, the same endpoints and the same condition trees, each at
/// the same index. What the conditions evaluate to plays no part.
pub proof fn lemma_equal_graphs_hold_the_same<T: Condition + PartialEq>(
    graph: DialogueGraph<T>,
    other: DialogueGraph<T>,
)
    requires
        exact_eq::<T>(),
    ensures
        graph.eq_spec(&other) <==> graph@ == other@,
{
    lemma_exact_eq_edge::<T>();
    if graph.eq_spec(&other) {
        assert forall|i: int| 0 <= i < graph@.edges.len() implies graph@.edges[i]
            == other@.edges[i] by {
            assert(graph@.edges[i].eq_spec(&other@.edges[i]));
        }
        assert(graph@.edges =~= other@.edges);
    }
    if graph@ == other@ {
        assert forall|i: int| 0 <= i < graph@.edges.len() implies (
        #[trigger] graph@.edges[i]).eq_spec(&other@.edges[i]) by {
            assert(graph@.edges[i] == other@.edges[i]);
        }
    }
}

} // verus!
