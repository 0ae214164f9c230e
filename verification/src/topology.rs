use petgraph::stable_graph::{NodeIndex, StableGraph};
use petgraph::{Directed, Direction};
use vstd::prelude::*;

verus! {

#[verifier::external_type_specification]
#[verifier::external_body]
#[verifier::reject_recursive_types(N)]
#[verifier::reject_recursive_types(E)]
#[verifier::reject_recursive_types(Ty)]
#[verifier::reject_recursive_types(Ix)]
pub struct ExStableGraph<N, E, Ty, Ix>(StableGraph<N, E, Ty, Ix>);

#[verifier::external_type_specification]
#[verifier::external_body]
pub struct ExDirected(Directed);

/// The node slots of a graph: slot `i` holds `true` where `i` is the index of
/// a node, `false` where a node was removed. The length is one more than the
/// greatest index ever handed out.
pub uninterp spec fn graph_slots(g: StableGraph<(), (), Directed, usize>) -> Seq<bool>;

/// The edges of a graph as pairs of source and target, by their index.
pub uninterp spec fn graph_edges(g: StableGraph<(), (), Directed, usize>) -> Seq<(int, int)>;

/// Whether the graph is as one from which no edge was removed: no place of
/// an edge is free, and every node lists its edges by falling index. In such
/// a graph the index of an edge tells when it was added.
pub uninterp spec fn graph_tidy(g: StableGraph<(), (), Directed, usize>) -> bool;

/// Indices as integers.
pub open spec fn as_ints(v: Seq<usize>) -> Seq<int> {
    v.map_values(|i: usize| i as int)
}

/// `n` is the index of a node.
pub open spec fn is_node(slots: Seq<bool>, n: int) -> bool {
    0 <= n < slots.len() && slots[n]
}

/// The sources of the edges into `n`, the edge added last first.
pub open spec fn incoming_sources(edges: Seq<(int, int)>, n: int) -> Seq<int>
    decreases edges.len(),
{
    if edges.len() == 0 {
        Seq::empty()
    } else if edges.last().1 == n {
        seq![edges.last().0] + incoming_sources(edges.drop_last(), n)
    } else {
        incoming_sources(edges.drop_last(), n)
    }
}

/// `path` leads along edges from its first node to its last.
pub open spec fn is_path(edges: Seq<(int, int)>, path: Seq<int>) -> bool {
    &&& path.len() >= 1
    &&& forall|i: int| 0 <= i < path.len() - 1 ==> edges.contains((#[trigger] path[i], path[i + 1]))
}

/// `n` lies on a cycle: a path of at least one edge leads from `n` back to it.
pub open spec fn on_cycle(edges: Seq<(int, int)>, n: int) -> bool {
    exists|path: Seq<int>|
        is_path(edges, path) && path.len() >= 2 && path[0] == n && #[trigger] path.last() == n
}

/// `order` lists every node once, each before the nodes that it has an edge to.
pub open spec fn is_topological_order(
    slots: Seq<bool>,
    edges: Seq<(int, int)>,
    order: Seq<int>,
) -> bool {
    &&& order.no_duplicates()
    &&& forall|n: int| is_node(slots, n) <==> order.contains(n)
    &&& forall|i: int, j: int|
        0 <= i < order.len() && 0 <= j < order.len() && edges.contains(
            (#[trigger] order[i], #[trigger] order[j]),
        ) ==> i < j
}

/// `StableGraph::with_capacity` with no capacity: a graph without nodes or
/// edges.
#[verifier::external_body]
pub(crate) fn graph_new() -> (g: StableGraph<(), (), Directed, usize>)
    ensures
        graph_slots(g).len() == 0,
        graph_edges(g).len() == 0,
        graph_tidy(g),
{
    StableGraph::with_capacity(0, 0)
}

/// `StableGraph::add_node`: the new node takes the slot of a removed node if
/// there is one, else a new slot at the end. Edges stay as they are.
#[verifier::external_body]
pub(crate) fn graph_add_node(g: &mut StableGraph<(), (), Directed, usize>) -> (r: usize)
    ensures
        r <= graph_slots(*old(g)).len(),
        r < graph_slots(*old(g)).len() ==> !graph_slots(*old(g))[r as int] && graph_slots(
            *final(g),
        ) == graph_slots(*old(g)).update(r as int, true),
        r == graph_slots(*old(g)).len() ==> graph_slots(*final(g)) == graph_slots(*old(g)).push(
            true,
        ),
        graph_edges(*final(g)) == graph_edges(*old(g)),
        graph_tidy(*final(g)) == graph_tidy(*old(g)),
{
    g.add_node(()).index()
}

/// `StableGraph::remove_node` on a graph without edges: removes the node
/// `n`, if there is one; the graph stays without edges, and tidy if it was.
/// The result says whether there was such a node. (With edges the call
/// would remove those from and to the node, and a later edge would take the
/// place of one of them; the graphs of this library lose nodes only before
/// they get edges.)
#[verifier::external_body]
pub(crate) fn graph_remove_node(g: &mut StableGraph<(), (), Directed, usize>, n: usize) -> (r:
    bool)
    requires
        graph_edges(*old(g)).len() == 0,
    ensures
        r == is_node(graph_slots(*old(g)), n as int),
        r ==> graph_slots(*final(g)) == graph_slots(*old(g)).update(n as int, false),
        !r ==> graph_slots(*final(g)) == graph_slots(*old(g)),
        graph_edges(*final(g)).len() == 0,
        graph_tidy(*final(g)) == graph_tidy(*old(g)),
{
    g.remove_node(NodeIndex::new(n)).is_some()
}

/// `StableGraph::update_edge` on a tidy graph: adds an edge from `a` to `b`,
/// behind the others, unless there is one already. Nodes stay as they are,
/// and the graph stays tidy.
#[verifier::external_body]
pub(crate) fn graph_update_edge(g: &mut StableGraph<(), (), Directed, usize>, a: usize, b: usize)
    requires
        is_node(graph_slots(*old(g)), a as int),
        is_node(graph_slots(*old(g)), b as int),
        graph_tidy(*old(g)),
    ensures
        graph_tidy(*final(g)),
        graph_slots(*final(g)) == graph_slots(*old(g)),
        graph_edges(*final(g)) == if graph_edges(*old(g)).contains((a as int, b as int)) {
            graph_edges(*old(g))
        } else {
            graph_edges(*old(g)).push((a as int, b as int))
        },
{
    g.update_edge(NodeIndex::new(a), NodeIndex::new(b), ());
}

/// `StableGraph::neighbors_directed` with `Direction::Incoming` on a tidy
/// graph: the nodes with an edge to `n`, that of the edge added last first.
#[verifier::external_body]
pub(crate) fn graph_incoming(g: &StableGraph<(), (), Directed, usize>, n: usize) -> (r: Vec<
    usize,
>)
    requires
        graph_tidy(*g),
    ensures
        as_ints(r@) == incoming_sources(graph_edges(*g), n as int),
{
    g.neighbors_directed(NodeIndex::new(n), Direction::Incoming).map(|i| i.index()).collect()
}

/// `petgraph::algo::toposort`: a topological order of the nodes, or, where
/// the graph has a cycle, a node that lies on one.
#[verifier::external_body]
pub(crate) fn graph_toposort(g: &StableGraph<(), (), Directed, usize>) -> (r: Result<
    Vec<usize>,
    usize,
>)
    ensures
        match r {
            Ok(order) => is_topological_order(
                graph_slots(*g),
                graph_edges(*g),
                as_ints(order@),
            ),
            Err(n) => is_node(graph_slots(*g), n as int) && on_cycle(graph_edges(*g), n as int),
        },
{
    match petgraph::algo::toposort(g, None) {
        Ok(order) => Ok(order.into_iter().map(|i| i.index()).collect()),
        Err(cycle) => Err(cycle.node_id().index()),
    }
}

/// Both ends of every edge are nodes.
pub open spec fn edges_between_nodes(slots: Seq<bool>, edges: Seq<(int, int)>) -> bool {
    forall|i: int|
        0 <= i < edges.len() ==> is_node(slots, (#[trigger] edges[i]).0) && is_node(
            slots,
            edges[i].1,
        )
}

/// The nodes with an edge to `n` are the sources of the edges into `n`.
pub proof fn lemma_incoming_sources(edges: Seq<(int, int)>, n: int, p: int)
    ensures
        incoming_sources(edges, n).contains(p) <==> edges.contains((p, n)),
    decreases edges.len(),
{
    if edges.len() > 0 {
        let rest = edges.drop_last();
        lemma_incoming_sources(rest, n, p);
        let last = edges.last();
        if edges.contains((p, n)) {
            let i = choose|i: int| 0 <= i < edges.len() && edges[i] == (p, n);
            if i < edges.len() - 1 {
                assert(rest[i] == (p, n));
                assert(rest.contains((p, n)));
            }
        }
        if rest.contains((p, n)) {
            let i = choose|i: int| 0 <= i < rest.len() && rest[i] == (p, n);
            assert(edges[i] == (p, n));
        }
        if last.1 == n {
            let head = seq![last.0];
            let tail = incoming_sources(rest, n);
            assert(incoming_sources(edges, n) == head + tail);
            if (head + tail).contains(p) {
                let i = choose|i: int| 0 <= i < (head + tail).len() && (head + tail)[i] == p;
                if i > 0 {
                    assert(tail[i - 1] == p);
                } else {
                    assert(edges[edges.len() - 1] == (p, n));
                }
            }
            if tail.contains(p) {
                let i = choose|i: int| 0 <= i < tail.len() && tail[i] == p;
                assert((head + tail)[i + 1] == p);
            }
            if last.0 == p {
                assert((head + tail)[0] == p);
                assert(edges[edges.len() - 1] == (p, n));
            }
        }
    }
}

/// Along a path the position in a topological order grows, so a graph with
/// such an order has no cycle.
pub proof fn lemma_ordered_acyclic(
    slots: Seq<bool>,
    edges: Seq<(int, int)>,
    order: Seq<int>,
    n: int,
)
    requires
        is_topological_order(slots, edges, order),
        edges_between_nodes(slots, edges),
    ensures
        !on_cycle(edges, n),
{
    if on_cycle(edges, n) {
        let path = choose|path: Seq<int>|
            is_path(edges, path) && path.len() >= 2 && path[0] == n && #[trigger] path.last() == n;
        assert(edges.contains((path[0], path[1])));
        lemma_edge_ends(slots, edges, path[0], path[1]);
        let start = order.index_of(n);
        lemma_path_ascends(slots, edges, order, path, path.len() - 1);
    }
}

/// Both ends of an edge are nodes.
pub proof fn lemma_edge_ends(slots: Seq<bool>, edges: Seq<(int, int)>, a: int, b: int)
    requires
        edges_between_nodes(slots, edges),
        edges.contains((a, b)),
    ensures
        is_node(slots, a),
        is_node(slots, b),
{
    let i = choose|i: int| 0 <= i < edges.len() && edges[i] == (a, b);
    assert(is_node(slots, edges[i].0));
}

/// The `k`-th node of a path comes later in a topological order than the
/// first.
pub proof fn lemma_path_ascends(
    slots: Seq<bool>,
    edges: Seq<(int, int)>,
    order: Seq<int>,
    path: Seq<int>,
    k: int,
)
    requires
        is_topological_order(slots, edges, order),
        edges_between_nodes(slots, edges),
        is_path(edges, path),
        1 <= k < path.len(),
    ensures
        order.contains(path[0]),
        order.contains(path[k]),
        order.index_of(path[0]) < order.index_of(path[k]),
    decreases k,
{
    assert(edges.contains((path[k - 1], path[k])));
    lemma_edge_ends(slots, edges, path[k - 1], path[k]);
    let a = order.index_of(path[k - 1]);
    let b = order.index_of(path[k]);
    assert(order[a] == path[k - 1] && order[b] == path[k]);
    assert(a < b);
    if k > 1 {
        lemma_path_ascends(slots, edges, order, path, k - 1);
    }
}

} // verus!
