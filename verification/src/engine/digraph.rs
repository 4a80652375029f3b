//! Directed graphs of numbers.
use petgraph::graph::{Graph, NodeIndex};
use petgraph::{Directed, Direction};
use vstd::prelude::*;

verus! {

/// `petgraph::graph::Graph`: nodes and edges with weights.
#[verifier::external_type_specification]
#[verifier::external_body]
#[verifier::reject_recursive_types(N)]
#[verifier::reject_recursive_types(E)]
#[verifier::reject_recursive_types(Ty)]
#[verifier::reject_recursive_types(Ix)]
pub struct ExGraph<N, E, Ty, Ix>(Graph<N, E, Ty, Ix>);

/// `petgraph::Directed`: the mark of a graph with directed edges.
#[verifier::external_type_specification]
#[verifier::external_body]
pub struct ExDirected(Directed);

/// How many nodes the graph has.
pub uninterp spec fn digraph_nodes(g: Graph<u64, u64>) -> nat;

/// The edges of the graph, in the order of their addition: where an edge starts, where
/// it ends, its weight.
pub uninterp spec fn digraph_edges(g: Graph<u64, u64>) -> Seq<(int, int, u64)>;

/// The sources of the edges into a node, the last added first.
pub open spec fn sources_into(edges: Seq<(int, int, u64)>, node: int) -> Seq<int>
    decreases edges.len(),
{
    if edges.len() == 0 {
        seq![]
    } else if edges.last().1 == node {
        seq![edges.last().0] + sources_into(edges.drop_last(), node)
    } else {
        sources_into(edges.drop_last(), node)
    }
}

/// The weight of the edge into a node that was added last.
pub open spec fn last_into(edges: Seq<(int, int, u64)>, node: int) -> Option<u64>
    decreases edges.len(),
{
    if edges.len() == 0 {
        None
    } else if edges.last().1 == node {
        Some(edges.last().2)
    } else {
        last_into(edges.drop_last(), node)
    }
}

/// The weight of the edge out of a node that was added last.
pub open spec fn last_out_of(edges: Seq<(int, int, u64)>, node: int) -> Option<u64>
    decreases edges.len(),
{
    if edges.len() == 0 {
        None
    } else if edges.last().0 == node {
        Some(edges.last().2)
    } else {
        last_out_of(edges.drop_last(), node)
    }
}

/// `Graph::new`: a graph without nodes and edges.
#[verifier::external_body]
pub(crate) fn new_digraph() -> (r: Graph<u64, u64>)
    ensures
        digraph_nodes(r) == 0,
        digraph_edges(r) == Seq::<(int, int, u64)>::empty(),
{
    Graph::new()
}

/// `Graph::clone`: the same nodes and edges once more.
#[verifier::external_body]
pub(crate) fn digraph_clone(g: &Graph<u64, u64>) -> (r: Graph<u64, u64>)
    ensures
        digraph_nodes(r) == digraph_nodes(*g),
        digraph_edges(r) == digraph_edges(*g),
{
    g.clone()
}

/// `Graph::add_node`: one more node, under the next number. Its index type holds at most
/// `u32::MAX` nodes.
#[verifier::external_body]
pub(crate) fn digraph_add_node(g: &mut Graph<u64, u64>, weight: u64) -> (r: usize)
    requires
        digraph_nodes(*old(g)) < u32::MAX,
    ensures
        r == digraph_nodes(*old(g)),
        digraph_nodes(*final(g)) == digraph_nodes(*old(g)) + 1,
        digraph_edges(*final(g)) == digraph_edges(*old(g)),
{
    g.add_node(weight).index()
}

/// `Graph::add_edge`: one more edge between two nodes of the graph, also where there
/// is one already. Its index type holds at most `u32::MAX` edges.
#[verifier::external_body]
pub(crate) fn digraph_add_edge(g: &mut Graph<u64, u64>, source: usize, target: usize, weight: u64)
    requires
        source < digraph_nodes(*old(g)),
        target < digraph_nodes(*old(g)),
        digraph_edges(*old(g)).len() < u32::MAX,
    ensures
        digraph_nodes(*final(g)) == digraph_nodes(*old(g)),
        digraph_edges(*final(g)) == digraph_edges(*old(g)).push(
            (source as int, target as int, weight),
        ),
{
    g.add_edge(NodeIndex::new(source), NodeIndex::new(target), weight);
}

/// `Graph::node_count`: how many nodes there are.
#[verifier::external_body]
pub(crate) fn digraph_node_count(g: &Graph<u64, u64>) -> (r: usize)
    ensures
        r == digraph_nodes(*g),
{
    g.node_count()
}

/// `Graph::neighbors_directed` with `Direction::Incoming`: the sources of the edges
/// into the node, the last added first.
#[verifier::external_body]
pub(crate) fn digraph_sources_into(g: &Graph<u64, u64>, node: usize) -> (r: Vec<usize>)
    requires
        node < digraph_nodes(*g),
    ensures
        Seq::new(r@.len(), |i: int| r@[i] as int) == sources_into(digraph_edges(*g), node as int),
{
    g.neighbors_directed(NodeIndex::new(node), Direction::Incoming).map(|n| n.index()).collect()
}

/// The first edge of `Graph::edges_directed` with `Direction::Incoming`: the one that
/// was added last.
#[verifier::external_body]
pub(crate) fn digraph_last_into(g: &Graph<u64, u64>, node: usize) -> (r: Option<u64>)
    requires
        node < digraph_nodes(*g),
    ensures
        r == last_into(digraph_edges(*g), node as int),
{
    g.edges_directed(NodeIndex::new(node), Direction::Incoming).next().map(|e| *e.weight())
}

/// The first edge of `Graph::edges_directed` with `Direction::Outgoing`: the one that
/// was added last.
#[verifier::external_body]
pub(crate) fn digraph_last_out_of(g: &Graph<u64, u64>, node: usize) -> (r: Option<u64>)
    requires
        node < digraph_nodes(*g),
    ensures
        r == last_out_of(digraph_edges(*g), node as int),
{
    g.edges_directed(NodeIndex::new(node), Direction::Outgoing).next().map(|e| *e.weight())
}

// ---------------------------------------------------------------------------
// Facts of edges
// ---------------------------------------------------------------------------
/// Whether there is an edge from one node to another.
pub open spec fn has_edge(edges: Seq<(int, int, u64)>, source: int, target: int) -> bool {
    exists|i: int|
        0 <= i < edges.len() && (#[trigger] edges[i]).0 == source && edges[i].1 == target
}

/// The sources of the edges into a node are the nodes with an edge to it.
pub proof fn sources_are(edges: Seq<(int, int, u64)>, node: int, source: int)
    ensures
        sources_into(edges, node).contains(source) <==> has_edge(edges, source, node),
    decreases edges.len(),
{
    if edges.len() > 0 {
        let most = edges.drop_last();
        sources_are(most, node, source);
        let a = sources_into(edges, node);
        let b = sources_into(most, node);
        if has_edge(most, source, node) {
            let i = choose|i: int|
                0 <= i < most.len() && (#[trigger] most[i]).0 == source && most[i].1
                    == node;
            assert(edges[i] == most[i]);
        }
        if has_edge(edges, source, node) {
            let i = choose|i: int|
                0 <= i < edges.len() && (#[trigger] edges[i]).0 == source && edges[i].1
                    == node;
            if i < most.len() {
                assert(most[i] == edges[i]);
            }
        }
        if edges.last().1 == node {
            if b.contains(source) {
                let i = choose|i: int| 0 <= i < b.len() && b[i] == source;
                assert(a[i + 1] == source);
            }
            if edges.last().0 == source {
                assert(a[0] == source);
                assert(edges[edges.len() - 1].0 == source);
            }
            if a.contains(source) {
                let i = choose|i: int| 0 <= i < a.len() && a[i] == source;
                if i > 0 {
                    assert(b[i - 1] == source);
                }
            }
        }
    }
}

/// Where there is an edge into a node, there is a last one, and it is into the node.
pub proof fn last_into_is(edges: Seq<(int, int, u64)>, node: int)
    ensures
        match last_into(edges, node) {
            Some(w) => exists|i: int|
                0 <= i < edges.len() && (#[trigger] edges[i]).1 == node && edges[i].2
                    == w && forall|j: int|
                    i < j < edges.len() ==> (#[trigger] edges[j]).1 != node,
            None => forall|i: int| 0 <= i < edges.len() ==> (#[trigger] edges[i]).1 != node,
        },
    decreases edges.len(),
{
    if edges.len() > 0 {
        let most = edges.drop_last();
        if edges.last().1 == node {
            assert(edges[edges.len() - 1].1 == node);
        } else {
            last_into_is(most, node);
            match last_into(most, node) {
                Some(w) => {
                    let i = choose|i: int|
                        0 <= i < most.len() && (#[trigger] most[i]).1 == node
                            && most[i].2 == w && forall|j: int|
                            i < j < most.len() ==> (#[trigger] most[j]).1 != node;
                    assert(edges[i] == most[i]);
                    assert forall|j: int| i < j < edges.len() implies (#[trigger] edges[j]).1
                        != node by {
                        if j < most.len() {
                            assert(most[j] == edges[j]);
                        }
                    }
                },
                None => {
                    assert forall|i: int| 0 <= i < edges.len() implies (
                    #[trigger] edges[i]).1 != node by {
                        if i < most.len() {
                            assert(most[i] == edges[i]);
                        }
                    }
                },
            }
        }
    }
}

/// Where there is an edge out of a node, there is a last one, and it is out of the
/// node.
pub proof fn last_out_of_is(edges: Seq<(int, int, u64)>, node: int)
    ensures
        match last_out_of(edges, node) {
            Some(w) => exists|i: int|
                0 <= i < edges.len() && (#[trigger] edges[i]).0 == node && edges[i].2
                    == w && forall|j: int|
                    i < j < edges.len() ==> (#[trigger] edges[j]).0 != node,
            None => forall|i: int| 0 <= i < edges.len() ==> (#[trigger] edges[i]).0 != node,
        },
    decreases edges.len(),
{
    if edges.len() > 0 {
        let most = edges.drop_last();
        if edges.last().0 == node {
            assert(edges[edges.len() - 1].0 == node);
        } else {
            last_out_of_is(most, node);
            match last_out_of(most, node) {
                Some(w) => {
                    let i = choose|i: int|
                        0 <= i < most.len() && (#[trigger] most[i]).0 == node
                            && most[i].2 == w && forall|j: int|
                            i < j < most.len() ==> (#[trigger] most[j]).0 != node;
                    assert(edges[i] == most[i]);
                    assert forall|j: int| i < j < edges.len() implies (#[trigger] edges[j]).0
                        != node by {
                        if j < most.len() {
                            assert(most[j] == edges[j]);
                        }
                    }
                },
                None => {
                    assert forall|i: int| 0 <= i < edges.len() implies (
                    #[trigger] edges[i]).0 != node by {
                        if i < most.len() {
                            assert(most[i] == edges[i]);
                        }
                    }
                },
            }
        }
    }
}

} // verus!
