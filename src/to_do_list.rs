//! The task tree store: a root at index 0 and nested items and views, with
//! node identifiers that stay dense across removals.

use crate::graph::NodeItem;
use crate::to_do_list_item::ToDoListItem;
use crate::tree_graph::{
    graph_add_edge, graph_add_node, graph_edge_count, graph_new, graph_node, graph_node_count,
    graph_nodes, graph_out_neighbors, graph_remove_node, graph_succs, retarget, succs_without,
    swap_out, total_len, INDEX_LIMIT,
};
use petgraph::Graph;
use vstd::prelude::*;

verus! {

/// A well-formed store: one outgoing list per node, the root at index 0,
/// every edge between live nodes and none into the root, and indices within
/// what the graph's index type holds.
pub open spec fn store_wf(nodes: Seq<NodeItem>, succs: Seq<Seq<usize>>) -> bool {
    &&& nodes.len() == succs.len()
    &&& 1 <= nodes.len() < INDEX_LIMIT
    &&& nodes[0] == NodeItem::Root
    &&& forall|a: int, k: int|
        0 <= a < succs.len() && 0 <= k < succs[a].len() ==> 0 < #[trigger] succs[a][k] < nodes.len()
}

/// The direct children of `a`, first added first.
pub open spec fn kids(succs: Seq<Seq<usize>>, a: usize) -> Seq<usize> {
    if a < succs.len() {
        succs[a as int].reverse()
    } else {
        seq![]
    }
}

/// The item held at `id`, if `id` names an item node.
pub open spec fn item_at(nodes: Seq<NodeItem>, id: usize) -> Option<ToDoListItem> {
    if id < nodes.len() {
        match nodes[id as int] {
            NodeItem::Item(item) => Some(item),
            _ => None,
        }
    } else {
        None
    }
}

/// Whether a new child can go under `parent`: the parent exists and the
/// index type has room for one more node and one more edge.
pub open spec fn can_add(nodes: Seq<NodeItem>, succs: Seq<Seq<usize>>, parent: usize) -> bool {
    &&& parent < nodes.len()
    &&& nodes.len() + 1 < INDEX_LIMIT
    &&& total_len(succs) < INDEX_LIMIT
}

/// The outgoing lists once `parent` gains the child with index `child`.
pub open spec fn succs_after_add(succs: Seq<Seq<usize>>, parent: usize, child: usize) -> Seq<Seq<usize>> {
    let s = succs.push(seq![]);
    s.update(parent as int, seq![child] + s[parent as int])
}

/// The parent a call to `add` means: the one given, or the root.
pub open spec fn parent_of(parent: Option<usize>) -> usize {
    match parent {
        Some(p) => p,
        None => 0,
    }
}

/// Depth-first order from `v`: `v` itself, then the walk from each child
/// in turn, first added first, descending at most `fuel` levels.
pub open spec fn preorder(succs: Seq<Seq<usize>>, v: usize, fuel: nat) -> Seq<usize>
    decreases fuel, 0nat,
{
    if fuel == 0 {
        seq![v]
    } else {
        seq![v] + preorder_list(succs, kids(succs, v), (fuel - 1) as nat)
    }
}

/// The walks from each of `cs` in turn, joined.
pub open spec fn preorder_list(succs: Seq<Seq<usize>>, cs: Seq<usize>, fuel: nat) -> Seq<usize>
    decreases fuel, cs.len(),
{
    if cs.len() == 0 {
        seq![]
    } else {
        preorder_list(succs, cs.drop_last(), fuel) + preorder(succs, cs.last(), fuel)
    }
}

/// `id` and all its descendants, depth first. A tree of `n` nodes is never
/// deeper than `n` levels, so the walk is bounded by the node count.
pub open spec fn deep(nodes: Seq<NodeItem>, succs: Seq<Seq<usize>>, id: usize) -> Seq<usize> {
    if id < nodes.len() {
        preorder(succs, id, nodes.len())
    } else {
        seq![]
    }
}

/// The nodes left once each index of `marked` in `1..i` is removed, the
/// highest first, each removal letting the last node take the freed index.
pub open spec fn nodes_dropping(nodes: Seq<NodeItem>, marked: Seq<usize>, i: nat) -> Seq<NodeItem>
    decreases i,
{
    if i <= 1 {
        nodes
    } else {
        let k = (i - 1) as usize;
        let next = if marked.contains(k) {
            swap_out(nodes, k as int)
        } else {
            nodes
        };
        nodes_dropping(next, marked, (i - 1) as nat)
    }
}

/// The outgoing lists left by the same removals as `nodes_dropping`.
pub open spec fn succs_dropping(succs: Seq<Seq<usize>>, marked: Seq<usize>, i: nat) -> Seq<Seq<usize>>
    decreases i,
{
    if i <= 1 {
        succs
    } else {
        let k = (i - 1) as usize;
        let next = if marked.contains(k) {
            succs_without(succs, k)
        } else {
            succs
        };
        succs_dropping(next, marked, (i - 1) as nat)
    }
}

proof fn lemma_retarget_bounds(t: Seq<usize>, a: usize, last: usize)
    requires
        1 <= a <= last,
        forall|k: int| 0 <= k < t.len() ==> 0 < #[trigger] t[k] <= last,
    ensures
        forall|k: int|
            0 <= k < retarget(t, a, last).len() ==> 0 < #[trigger] retarget(t, a, last)[k] < last,
    decreases t.len(),
{
    if t.len() > 0 {
        let rest = t.drop_last();
        assert forall|k: int| 0 <= k < rest.len() implies 0 < #[trigger] rest[k] <= last by {
            assert(rest[k] == t[k]);
        }
        lemma_retarget_bounds(rest, a, last);
        let x = t.last();
        assert(0 < x <= last);
        let r = retarget(t, a, last);
        let rr = retarget(rest, a, last);
        assert forall|k: int| 0 <= k < r.len() implies 0 < #[trigger] r[k] < last by {
            if k < rr.len() {
                assert(r[k] == rr[k]);
            }
        }
    }
}

/// Removing a node other than the root keeps the store well formed.
proof fn lemma_remove_node_wf(nodes: Seq<NodeItem>, succs: Seq<Seq<usize>>, a: usize)
    requires
        store_wf(nodes, succs),
        1 <= a < nodes.len(),
    ensures
        store_wf(swap_out(nodes, a as int), succs_without(succs, a)),
{
    let last = (succs.len() - 1) as usize;
    let nodes2 = swap_out(nodes, a as int);
    let succs2 = succs_without(succs, a);
    assert(nodes2[0] == nodes[0]);
    assert forall|b: int, k: int|
        0 <= b < succs2.len() && 0 <= k < succs2[b].len() implies 0 < #[trigger] succs2[b][k] < nodes2.len() by {
        let t = swap_out(succs, a as int)[b];
        assert forall|j: int| 0 <= j < t.len() implies 0 < #[trigger] t[j] <= last by {
            if b == a as int {
                assert(t == succs[last as int]);
            } else {
                assert(t == succs[b]);
            }
        }
        lemma_retarget_bounds(t, a, last);
    }
}

/// Whether `v` holds `x`.
fn holds(v: &Vec<usize>, x: usize) -> (r: bool)
    ensures
        r == v@.contains(x),
{
    let mut j: usize = 0;
    while j < v.len()
        invariant
            j <= v@.len(),
            forall|k: int| 0 <= k < j ==> v@[k] != x,
        decreases v@.len() - j,
    {
        if v[j] == x {
            return true;
        }
        j = j + 1;
    }
    false
}

/// How many identifiers in `1..i` `marked` holds.
pub open spec fn marked_count(marked: Seq<usize>, i: nat) -> nat
    decreases i,
{
    if i <= 1 {
        0
    } else {
        marked_count(marked, (i - 1) as nat) + if marked.contains((i - 1) as usize) {
            1nat
        } else {
            0nat
        }
    }
}

proof fn lemma_dropping_len(nodes: Seq<NodeItem>, marked: Seq<usize>, i: nat)
    requires
        i <= nodes.len(),
    ensures
        nodes_dropping(nodes, marked, i).len() == nodes.len() - marked_count(marked, i),
    decreases i,
{
    if i > 1 {
        let k = (i - 1) as usize;
        let next = if marked.contains(k) {
            swap_out(nodes, k as int)
        } else {
            nodes
        };
        lemma_dropping_len(next, marked, (i - 1) as nat);
    }
}

/// An item added under a live parent, with room left, is what `get` finds
/// at the identifier that `add` returned.
pub proof fn law_add_then_get(
    nodes: Seq<NodeItem>,
    succs: Seq<Seq<usize>>,
    item: ToDoListItem,
    parent: usize,
)
    requires
        store_wf(nodes, succs),
        can_add(nodes, succs, parent),
    ensures
        item_at(nodes.push(NodeItem::Item(item)), nodes.len() as usize) == Some(item),
{
}

/// Removing a node other than the root takes out one node for each distinct
/// identifier that its depth-first walk lists, and no other.
pub proof fn law_remove_takes_the_walk(nodes: Seq<NodeItem>, succs: Seq<Seq<usize>>, id: usize)
    requires
        store_wf(nodes, succs),
        0 < id < nodes.len(),
    ensures
        nodes_dropping(nodes, deep(nodes, succs, id), nodes.len()).len() == nodes.len()
            - marked_count(deep(nodes, succs, id), nodes.len()),
{
    lemma_dropping_len(nodes, deep(nodes, succs, id), nodes.len());
}

/// Whether `u` is `v` or lies below `v` by at most `steps` child edges.
pub open spec fn reaches(succs: Seq<Seq<usize>>, v: usize, u: usize, steps: nat) -> bool
    decreases steps, 0nat,
{
    v == u || (steps > 0 && reaches_any(succs, kids(succs, v), u, (steps - 1) as nat))
}

/// Whether one of `cs` reaches `u` by at most `steps` child edges.
pub open spec fn reaches_any(succs: Seq<Seq<usize>>, cs: Seq<usize>, u: usize, steps: nat) -> bool
    decreases steps, cs.len(),
{
    cs.len() > 0 && (reaches_any(succs, cs.drop_last(), u, steps) || reaches(
        succs,
        cs.last(),
        u,
        steps,
    ))
}

proof fn lemma_walk_holds_reached(succs: Seq<Seq<usize>>, v: usize, u: usize, steps: nat, fuel: nat)
    requires
        reaches(succs, v, u, steps),
        steps <= fuel,
    ensures
        preorder(succs, v, fuel).contains(u),
    decreases steps, 0nat,
{
    let walk = preorder(succs, v, fuel);
    if v == u {
        assert(walk[0] == v);
    } else {
        let cs = kids(succs, v);
        lemma_list_holds_reached(succs, cs, u, (steps - 1) as nat, (fuel - 1) as nat);
        let rest = preorder_list(succs, cs, (fuel - 1) as nat);
        let i = choose|i: int| 0 <= i < rest.len() && rest[i] == u;
        assert(walk == seq![v] + rest);
        assert(walk[i + 1] == u);
    }
}

proof fn lemma_list_holds_reached(succs: Seq<Seq<usize>>, cs: Seq<usize>, u: usize, steps: nat, fuel: nat)
    requires
        reaches_any(succs, cs, u, steps),
        steps <= fuel,
    ensures
        preorder_list(succs, cs, fuel).contains(u),
    decreases steps, cs.len(),
{
    let front = preorder_list(succs, cs.drop_last(), fuel);
    let back = preorder(succs, cs.last(), fuel);
    let whole = preorder_list(succs, cs, fuel);
    assert(whole == front + back);
    if reaches_any(succs, cs.drop_last(), u, steps) {
        lemma_list_holds_reached(succs, cs.drop_last(), u, steps, fuel);
        let i = choose|i: int| 0 <= i < front.len() && front[i] == u;
        assert(whole[i] == u);
    } else {
        lemma_walk_holds_reached(succs, cs.last(), u, steps, fuel);
        let j = choose|j: int| 0 <= j < back.len() && back[j] == u;
        assert(whole[front.len() + j] == u);
    }
}

/// The depth-first walk from a live `id`, which `remove(id)` takes out,
/// lists every node below `id` by at most as many edges as there are nodes;
/// in a tree that is every descendant.
pub proof fn law_walk_holds_descendants(
    nodes: Seq<NodeItem>,
    succs: Seq<Seq<usize>>,
    id: usize,
    u: usize,
    steps: nat,
)
    requires
        store_wf(nodes, succs),
        id < nodes.len(),
        reaches(succs, id, u, steps),
        steps <= nodes.len(),
    ensures
        deep(nodes, succs, id).contains(u),
{
    lemma_walk_holds_reached(succs, id, u, steps, nodes.len());
}

/// The task tree, held in a petgraph graph: node weights are the nodes, and
/// each edge runs from a parent to one of its children.
pub struct ToDoList {
    graph: Box<Graph<NodeItem, ()>>,
}

impl ToDoList {
    /// The nodes of the store, by identifier.
    pub closed spec fn nodes(&self) -> Seq<NodeItem> {
        graph_nodes(*self.graph)
    }

    /// For each node, the identifiers of its children, last added first.
    pub closed spec fn succs(&self) -> Seq<Seq<usize>> {
        graph_succs(*self.graph)
    }

    /// The invariant that every operation keeps.
    pub open spec fn wf(&self) -> bool {
        store_wf(self.nodes(), self.succs())
    }

    /// A store holding the root alone.
    pub fn new() -> (r: Self)
        ensures
            r.wf(),
            r.nodes() == seq![NodeItem::Root],
            r.succs() == seq![Seq::<usize>::empty()],
            total_len(r.succs()) == 0,
    {
        let graph = Box::new(graph_new());
        let r = ToDoList::from_graph(graph);
        assert(r.succs().drop_last() =~= Seq::<Seq<usize>>::empty());
        assert(total_len(Seq::<Seq<usize>>::empty()) == 0);
        assert(r.succs().last().len() == 0);
        r
    }

    /// A store over an empty graph, into which the root is put.
    pub fn from_graph(graph: Box<Graph<NodeItem, ()>>) -> (r: Self)
        requires
            graph_nodes(*graph).len() == 0,
            graph_succs(*graph).len() == 0,
        ensures
            r.wf(),
            r.nodes() == seq![NodeItem::Root],
            r.succs() == seq![Seq::<usize>::empty()],
    {
        let mut graph = graph;
        graph_add_node(&mut graph, NodeItem::Root);
        let r = ToDoList { graph: graph };
        assert(r.nodes() =~= seq![NodeItem::Root]);
        assert(r.succs() =~= seq![Seq::<usize>::empty()]);
        r
    }

    /// The number of nodes, the root included.
    pub fn node_count(&self) -> (r: usize)
        ensures
            r == self.nodes().len(),
    {
        graph_node_count(&self.graph)
    }

    /// The number of parent-to-child edges.
    pub fn edge_count(&self) -> (r: usize)
        ensures
            r == total_len(self.succs()),
    {
        graph_edge_count(&self.graph)
    }

    /// The node at `id`, of whatever kind, if `id` is live.
    pub fn node(&self, id: usize) -> (r: Option<&NodeItem>)
        requires
            self.wf(),
        ensures
            match r {
                Some(x) => id < self.nodes().len() && *x == self.nodes()[id as int],
                None => id >= self.nodes().len(),
            },
    {
        if id < graph_node_count(&self.graph) {
            Some(graph_node(&self.graph, id))
        } else {
            None
        }
    }

    /// The item at `id`; nothing for the root, a view, or an id that is not live.
    pub fn get(&self, id: usize) -> (r: Option<&ToDoListItem>)
        requires
            self.wf(),
        ensures
            match r {
                Some(x) => item_at(self.nodes(), id) == Some(*x),
                None => item_at(self.nodes(), id).is_none(),
            },
    {
        match self.node(id) {
            Some(NodeItem::Item(item)) => Some(item),
            _ => None,
        }
    }

    /// Adds `item` as the last child of `parent_` (the root when it is
    /// `None`) and returns its identifier, the old node count. Nothing
    /// happens, and `None` comes back, when the parent is not live or the
    /// graph is full.
    pub fn add(&mut self, item: ToDoListItem, parent_: Option<usize>) -> (r: Option<usize>)
        requires
            old(self).wf(),
        ensures
            final(self).wf(),
            can_add(old(self).nodes(), old(self).succs(), parent_of(parent_)) ==> {
                &&& r == Some(old(self).nodes().len() as usize)
                &&& final(self).nodes() == old(self).nodes().push(NodeItem::Item(item))
                &&& final(self).succs() == succs_after_add(
                    old(self).succs(),
                    parent_of(parent_),
                    old(self).nodes().len() as usize,
                )
            },
            !can_add(old(self).nodes(), old(self).succs(), parent_of(parent_)) ==> {
                &&& r.is_none()
                &&& final(self).nodes() == old(self).nodes()
                &&& final(self).succs() == old(self).succs()
            },
    {
        let parent = match parent_ {
            Some(p) => p,
            None => 0,
        };
        let n = graph_node_count(&self.graph);
        if parent >= n || n + 1 >= INDEX_LIMIT {
            return None;
        }
        if graph_edge_count(&self.graph) >= INDEX_LIMIT {
            return None;
        }
        let ghost old_succs = self.succs();
        let child = graph_add_node(&mut self.graph, NodeItem::Item(item));
        assert(self.succs().drop_last() =~= old_succs);
        graph_add_edge(&mut self.graph, parent, child);
        proof {
            let succs = self.succs();
            assert(succs =~= succs_after_add(old_succs, parent, child));
            assert forall|a: int, k: int|
                0 <= a < succs.len() && 0 <= k < succs[a].len() implies 0 < #[trigger] succs[a][k] < self.nodes().len() by {
                if a == parent as int {
                    if k > 0 {
                        assert(succs[a][k] == old_succs[a][k - 1]);
                    }
                } else if a < old_succs.len() {
                    assert(succs[a][k] == old_succs[a][k]);
                }
            }
        }
        Some(child)
    }

    /// The children of `index`, first added first; none when `index` is not live.
    pub fn children(&self, index: usize) -> (r: Vec<usize>)
        requires
            self.wf(),
        ensures
            r@ == kids(self.succs(), index),
    {
        let mut items: Vec<usize> = Vec::new();
        if index >= graph_node_count(&self.graph) {
            assert(items@ =~= kids(self.succs(), index));
            return items;
        }
        let newest_first = graph_out_neighbors(&self.graph, index);
        let len = newest_first.len();
        let mut k: usize = len;
        while k > 0
            invariant
                k <= len,
                len == newest_first@.len(),
                items@ =~= newest_first@.subrange(k as int, len as int).reverse(),
            decreases k,
        {
            k = k - 1;
            items.push(newest_first[k]);
            assert(items@ =~= newest_first@.subrange(k as int, len as int).reverse());
        }
        assert(newest_first@.subrange(0, len as int) =~= newest_first@);
        items
    }

    /// Removes `id` and all its descendants, and returns `id`; the identifiers
    /// of the nodes left are compacted to stay dense. The root and ids that
    /// are not live are refused: nothing changes and `None` comes back.
    pub fn remove(&mut self, id: usize) -> (r: Option<usize>)
        requires
            old(self).wf(),
        ensures
            final(self).wf(),
            id == 0 || id >= old(self).nodes().len() ==> {
                &&& r.is_none()
                &&& final(self).nodes() == old(self).nodes()
                &&& final(self).succs() == old(self).succs()
            },
            0 < id < old(self).nodes().len() ==> {
                let gone = deep(old(self).nodes(), old(self).succs(), id);
                let n = old(self).nodes().len();
                &&& r == Some(id)
                &&& final(self).nodes() == nodes_dropping(old(self).nodes(), gone, n)
                &&& final(self).succs() == succs_dropping(old(self).succs(), gone, n)
            },
    {
        let n = graph_node_count(&self.graph);
        if id == 0 || id >= n {
            return None;
        }
        let gone = self.deep_children(id);
        let ghost nodes0 = self.nodes();
        let ghost succs0 = self.succs();
        let mut i: usize = n;
        while i > 1
            invariant
                self.wf(),
                1 <= i <= n,
                i <= self.nodes().len(),
                nodes_dropping(self.nodes(), gone@, i as nat) == nodes_dropping(nodes0, gone@, n as nat),
                succs_dropping(self.succs(), gone@, i as nat) == succs_dropping(succs0, gone@, n as nat),
            decreases i,
        {
            let k = i - 1;
            if holds(&gone, k) {
                proof {
                    lemma_remove_node_wf(self.nodes(), self.succs(), k);
                }
                graph_remove_node(&mut self.graph, k);
            }
            i = k;
        }
        Some(id)
    }

    /// Appends the depth-first walk from `v`, `fuel` levels deep, to `out`.
    fn walk(&self, v: usize, fuel: usize, out: &mut Vec<usize>)
        requires
            self.wf(),
            v < self.nodes().len(),
        ensures
            final(out)@ == old(out)@ + preorder(self.succs(), v, fuel as nat),
        decreases fuel,
    {
        let ghost start = out@;
        out.push(v);
        if fuel == 0 {
            return;
        }
        let cs = self.children(v);
        let ghost succs = self.succs();
        let mut j: usize = 0;
        while j < cs.len()
            invariant
                self.wf(),
                succs == self.succs(),
                fuel > 0,
                v < self.nodes().len(),
                cs@ == kids(succs, v),
                j <= cs@.len(),
                out@ == start + seq![v] + preorder_list(succs, cs@.take(j as int), (fuel - 1) as nat),
            decreases cs@.len() - j,
        {
            let c = cs[j];
            assert(c == succs[v as int][succs[v as int].len() - 1 - j]);
            self.walk(c, fuel - 1, out);
            assert(cs@.take(j + 1).drop_last() =~= cs@.take(j as int));
            j = j + 1;
        }
        assert(cs@.take(cs@.len() as int) =~= cs@);
        assert(out@ =~= start + preorder(succs, v, fuel as nat));
    }

    /// `id` followed by all its descendants, depth first, children first
    /// added first; empty when `id` is not live.
    pub fn deep_children(&self, id: usize) -> (r: Vec<usize>)
        requires
            self.wf(),
        ensures
            r@ == deep(self.nodes(), self.succs(), id),
    {
        let mut out: Vec<usize> = Vec::new();
        let n = graph_node_count(&self.graph);
        if id < n {
            self.walk(id, n, &mut out);
        }
        assert(out@ =~= deep(self.nodes(), self.succs(), id));
        out
    }
}

} // verus!
