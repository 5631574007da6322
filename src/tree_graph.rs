//! The petgraph graph that backs the task tree, seen through two names:
//! the node weights in index order, and for each node the targets of its
//! outgoing edges in the order petgraph walks them (newest edge first).

use crate::graph::NodeItem;
use petgraph::graph::NodeIndex;
use petgraph::{Direction, Graph};
use vstd::prelude::*;

verus! {

/// petgraph's adjacency-list graph, opaque to the proofs.
#[verifier::external_type_specification]
#[verifier::external_body]
#[verifier::reject_recursive_types(N)]
#[verifier::reject_recursive_types(E)]
#[verifier::reject_recursive_types(Ty)]
#[verifier::reject_recursive_types(Ix)]
pub struct ExGraph<N, E, Ty, Ix>(Graph<N, E, Ty, Ix>);

/// petgraph's marker for directed edges.
#[verifier::external_type_specification]
#[verifier::external_body]
pub struct ExDirected(petgraph::Directed);

/// The node weights of a graph, by node index.
pub uninterp spec fn graph_nodes(g: Graph<NodeItem, ()>) -> Seq<NodeItem>;

/// For each node index, the targets of its outgoing edges, in the order in
/// which `neighbors_directed(_, Outgoing)` yields them.
pub uninterp spec fn graph_succs(g: Graph<NodeItem, ()>) -> Seq<Seq<usize>>;

/// Indices of the default index type are `u32`; the largest is reserved.
pub const INDEX_LIMIT: usize = 0xFFFF_FFFF;

/// Number of edges: each edge stands in exactly one outgoing list.
pub open spec fn total_len(s: Seq<Seq<usize>>) -> nat
    decreases s.len(),
{
    if s.len() == 0 {
        0
    } else {
        total_len(s.drop_last()) + s.last().len()
    }
}

/// `Vec::swap_remove` on a sequence: the last element takes slot `a`.
pub open spec fn swap_out<T>(s: Seq<T>, a: int) -> Seq<T> {
    s.update(a, s.last()).drop_last()
}

/// An outgoing list after node `a` is removed and node `last` takes its index:
/// targets equal to `a` go, targets equal to `last` become `a`, order is kept.
pub open spec fn retarget(t: Seq<usize>, a: usize, last: usize) -> Seq<usize>
    decreases t.len(),
{
    if t.len() == 0 {
        seq![]
    } else {
        let rest = retarget(t.drop_last(), a, last);
        let x = t.last();
        if x == a {
            rest
        } else if x == last {
            rest.push(a)
        } else {
            rest.push(x)
        }
    }
}

/// The outgoing lists after `remove_node(a)`.
pub open spec fn succs_without(s: Seq<Seq<usize>>, a: usize) -> Seq<Seq<usize>> {
    let last = (s.len() - 1) as usize;
    swap_out(s, a as int).map_values(|t: Seq<usize>| retarget(t, a, last))
}

/// Relies on `Graph::new`: a directed graph with no nodes and no edges.
#[verifier::external_body]
pub(crate) fn graph_new() -> (g: Graph<NodeItem, ()>)
    ensures
        graph_nodes(g) == Seq::<NodeItem>::empty(),
        graph_succs(g) == Seq::<Seq<usize>>::empty(),
{
    Graph::new()
}

/// Relies on `Graph::node_count`: the length of the node vector.
#[verifier::external_body]
pub(crate) fn graph_node_count(g: &Graph<NodeItem, ()>) -> (r: usize)
    ensures
        r == graph_nodes(*g).len(),
{
    g.node_count()
}

/// Relies on `Graph::edge_count`: the length of the edge vector, whose
/// edges each stand in the outgoing list of their source.
#[verifier::external_body]
pub(crate) fn graph_edge_count(g: &Graph<NodeItem, ()>) -> (r: usize)
    ensures
        r == total_len(graph_succs(*g)),
{
    g.edge_count()
}

/// Relies on `Graph::add_node`: pushes a node with no edges and returns its
/// index; it panics when the index would reach `u32::MAX`.
#[verifier::external_body]
pub(crate) fn graph_add_node(g: &mut Graph<NodeItem, ()>, w: NodeItem) -> (r: usize)
    requires
        graph_nodes(*old(g)).len() < INDEX_LIMIT,
    ensures
        r == graph_nodes(*old(g)).len(),
        graph_nodes(*final(g)) == graph_nodes(*old(g)).push(w),
        graph_succs(*final(g)) == graph_succs(*old(g)).push(Seq::<usize>::empty()),
{
    g.add_node(w).index()
}

/// Relies on `Graph::add_edge`: the new edge heads the outgoing list of `a`;
/// it panics on an index out of bounds or when the edge count reaches
/// `u32::MAX`.
#[verifier::external_body]
pub(crate) fn graph_add_edge(g: &mut Graph<NodeItem, ()>, a: usize, b: usize)
    requires
        a < graph_nodes(*old(g)).len(),
        b < graph_nodes(*old(g)).len(),
        graph_nodes(*old(g)).len() <= INDEX_LIMIT,
        total_len(graph_succs(*old(g))) < INDEX_LIMIT,
    ensures
        graph_nodes(*final(g)) == graph_nodes(*old(g)),
        graph_succs(*final(g)) == graph_succs(*old(g)).update(
            a as int,
            seq![b] + graph_succs(*old(g))[a as int],
        ),
{
    g.add_edge(NodeIndex::new(a), NodeIndex::new(b), ());
}

/// Relies on `Graph::node_weight`: the weight of node `a`.
#[verifier::external_body]
pub(crate) fn graph_node(g: &Graph<NodeItem, ()>, a: usize) -> (r: &NodeItem)
    requires
        a < graph_nodes(*g).len(),
        graph_nodes(*g).len() <= INDEX_LIMIT,
    ensures
        *r == graph_nodes(*g)[a as int],
{
    g.node_weight(NodeIndex::new(a)).unwrap()
}

/// Relies on `Graph::neighbors_directed` with `Outgoing`: the targets of the
/// outgoing edges of `a`, newest edge first.
#[verifier::external_body]
pub(crate) fn graph_out_neighbors(g: &Graph<NodeItem, ()>, a: usize) -> (r: Vec<usize>)
    requires
        a < graph_nodes(*g).len(),
        graph_nodes(*g).len() <= INDEX_LIMIT,
    ensures
        r@ == graph_succs(*g)[a as int],
{
    g.neighbors_directed(NodeIndex::new(a), Direction::Outgoing).map(|n| n.index()).collect()
}

/// Relies on `Graph::remove_node`: the edges at `a` go, the last node takes
/// index `a` (as `Vec::swap_remove` does), and every other outgoing list
/// keeps its order.
#[verifier::external_body]
pub(crate) fn graph_remove_node(g: &mut Graph<NodeItem, ()>, a: usize)
    requires
        a < graph_nodes(*old(g)).len(),
        graph_nodes(*old(g)).len() <= INDEX_LIMIT,
    ensures
        graph_nodes(*final(g)) == swap_out(graph_nodes(*old(g)), a as int),
        graph_succs(*final(g)) == succs_without(graph_succs(*old(g)), a),
{
    g.remove_node(NodeIndex::new(a));
}

} // verus!
