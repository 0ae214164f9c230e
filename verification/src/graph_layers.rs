use crate::graph_plan::{
    edge_views, edges_within, lemma_representative, merged_edges, representative, BuiltNode,
};
use crate::topology::{
    as_ints, edges_between_nodes, graph_add_node, graph_edges, graph_incoming, graph_new,
    graph_remove_node, graph_slots, graph_tidy, graph_update_edge, incoming_sources, is_node,
    is_topological_order, lemma_edge_ends, lemma_incoming_sources,
};
use petgraph::stable_graph::StableGraph;
use petgraph::Directed;
use vstd::prelude::*;

verus! {

/// The slots of the graph once duplicates are merged: a node stays where it
/// stands for itself.
pub open spec fn planned_slots(built: Seq<BuiltNode>, optimize: bool) -> Seq<bool> {
    Seq::new(built.len(), |i: int| representative(built, optimize, i) == i)
}

/// Merged edges run between representatives.
pub proof fn lemma_merged_edges_between_nodes(
    edges: Seq<(int, int)>,
    built: Seq<BuiltNode>,
    optimize: bool,
)
    requires
        edges_within(edges, built.len() as int),
    ensures
        edges_between_nodes(planned_slots(built, optimize), merged_edges(edges, built, optimize)),
    decreases edges.len(),
{
    if edges.len() > 0 {
        let rest = edges.drop_last();
        assert forall|i: int| 0 <= i < rest.len() implies 0 <= (#[trigger] rest[i]).0 < built.len()
            && 0 <= rest[i].1 < built.len() by {
            assert(rest[i] == edges[i]);
        }
        lemma_merged_edges_between_nodes(rest, built, optimize);
        let last = edges[edges.len() - 1];
        lemma_representative(built, optimize, last.0);
        lemma_representative(built, optimize, last.1);
    }
}

/// The graph of the representatives with the merged edges.
pub(crate) fn build_topology(
    reps: &Vec<usize>,
    edges: &Vec<(usize, usize)>,
    Ghost(built): Ghost<Seq<BuiltNode>>,
    Ghost(optimize): Ghost<bool>,
) -> (g: StableGraph<(), (), Directed, usize>)
    requires
        reps@.len() == built.len(),
        forall|i: int|
            0 <= i < reps@.len() ==> #[trigger] reps@[i] == representative(built, optimize, i),
        edges_within(edge_views(edges@), built.len() as int),
    ensures
        graph_slots(g) == planned_slots(built, optimize),
        graph_edges(g) == merged_edges(edge_views(edges@), built, optimize),
        graph_tidy(g),
{
    let n = reps.len();
    let mut g = graph_new();
    let mut i: usize = 0;
    while i < n
        invariant
            i <= n,
            graph_slots(g).len() == i,
            forall|j: int| 0 <= j < i ==> #[trigger] graph_slots(g)[j],
            graph_edges(g).len() == 0,
            graph_tidy(g),
        decreases n - i,
    {
        let r = graph_add_node(&mut g);
        assert(r == i);
        i += 1;
    }
    let mut i: usize = 0;
    while i < n
        invariant
            i <= n,
            n == reps@.len(),
            reps@.len() == built.len(),
            forall|j: int|
                0 <= j < reps@.len() ==> #[trigger] reps@[j] == representative(built, optimize, j),
            graph_slots(g).len() == n,
            forall|j: int|
                0 <= j < n ==> #[trigger] graph_slots(g)[j] == (j >= i || representative(
                    built,
                    optimize,
                    j,
                ) == j),
            graph_edges(g).len() == 0,
            graph_tidy(g),
        decreases n - i,
    {
        if reps[i] != i {
            let _ = graph_remove_node(&mut g, i);
        }
        i += 1;
    }
    assert(graph_slots(g) =~= planned_slots(built, optimize));
    let ghost all = edge_views(edges@);
    let mut k: usize = 0;
    assert(graph_edges(g) =~= merged_edges(all.take(0), built, optimize));
    while k < edges.len()
        invariant
            k <= edges.len(),
            all == edge_views(edges@),
            edges_within(all, built.len() as int),
            reps@.len() == built.len(),
            forall|j: int|
                0 <= j < reps@.len() ==> #[trigger] reps@[j] == representative(built, optimize, j),
            graph_slots(g) == planned_slots(built, optimize),
            graph_edges(g) == merged_edges(all.take(k as int), built, optimize),
            graph_tidy(g),
        decreases edges.len() - k,
    {
        let e = edges[k];
        proof {
            assert(all[k as int] == (e.0 as int, e.1 as int));
            assert(all.take(k + 1).drop_last() == all.take(k as int));
            assert(all.take(k + 1).last() == all[k as int]);
            lemma_representative(built, optimize, e.0 as int);
            lemma_representative(built, optimize, e.1 as int);
        }
        let a = reps[e.0];
        let b = reps[e.1];
        graph_update_edge(&mut g, a, b);
        k += 1;
    }
    assert(all.take(edges@.len() as int) == all);
    g
}

/// Levels of an eager layering: a node without an edge into it has level 0;
/// any other node lies one level above the highest of the nodes with an edge
/// to it.
pub open spec fn is_layering(slots: Seq<bool>, edges: Seq<(int, int)>, level: Seq<int>) -> bool {
    &&& level.len() == slots.len()
    &&& forall|n: int| is_node(slots, n) ==> #[trigger] level[n] >= 0
    &&& forall|p: int, n: int| #[trigger] edges.contains((p, n)) ==> level[p] < level[n]
    &&& forall|n: int|
        is_node(slots, n) && #[trigger] level[n] > 0 ==> exists|p: int|
            #[trigger] edges.contains((p, n)) && level[p] == level[n] - 1
}

/// What holds of the node at position `q` of the order once its level is set.
pub open spec fn settled(edges: Seq<(int, int)>, level: Seq<int>, order: Seq<int>, q: int) -> bool {
    &&& 0 <= level[order[q]] <= q
    &&& forall|p: int| #[trigger] edges.contains((p, order[q])) ==> level[p] < level[order[q]]
    &&& level[order[q]] > 0 ==> exists|p: int|
        #[trigger] edges.contains((p, order[q])) && level[p] == level[order[q]] - 1
}

/// The level of each node, computed along a topological order.
pub(crate) fn compute_levels(
    g: &StableGraph<(), (), Directed, usize>,
    order: &Vec<usize>,
    n: usize,
) -> (levels: Vec<usize>)
    requires
        is_topological_order(graph_slots(*g), graph_edges(*g), as_ints(order@)),
        edges_between_nodes(graph_slots(*g), graph_edges(*g)),
        graph_slots(*g).len() == n,
        graph_tidy(*g),
    ensures
        levels@.len() == n,
        is_layering(graph_slots(*g), graph_edges(*g), as_ints(levels@)),
        forall|n: int| is_node(graph_slots(*g), n) ==> as_ints(levels@)[n] < order@.len(),
{
    let ghost slots = graph_slots(*g);
    let ghost edges = graph_edges(*g);
    let ghost ord = as_ints(order@);
    let mut levels: Vec<usize> = Vec::new();
    let mut i: usize = 0;
    while i < n
        invariant
            i <= n,
            levels@.len() == i,
        decreases n - i,
    {
        levels.push(0);
        i += 1;
    }
    let mut t: usize = 0;
    while t < order.len()
        invariant
            t <= order.len(),
            slots == graph_slots(*g),
            edges == graph_edges(*g),
            graph_tidy(*g),
            ord == as_ints(order@),
            is_topological_order(slots, edges, ord),
            edges_between_nodes(slots, edges),
            levels@.len() == slots.len(),
            forall|q: int| 0 <= q < t ==> settled(edges, as_ints(levels@), ord, q),
        decreases order.len() - t,
    {
        let node = order[t];
        assert(ord[t as int] == node);
        assert(ord.contains(node as int));
        assert(is_node(slots, node as int));
        let preds = graph_incoming(g, node);
        let ghost sources = incoming_sources(edges, node as int);
        let mut level: usize = 0;
        let mut j: usize = 0;
        while j < preds.len()
            invariant
                j <= preds.len(),
                t < order.len(),
                ord[t as int] == node,
                slots == graph_slots(*g),
                edges == graph_edges(*g),
                ord == as_ints(order@),
                is_topological_order(slots, edges, ord),
                edges_between_nodes(slots, edges),
                levels@.len() == slots.len(),
                forall|q: int| 0 <= q < t ==> settled(edges, as_ints(levels@), ord, q),
                as_ints(preds@) == sources,
                sources == incoming_sources(edges, node as int),
                level <= t,
                forall|m: int| 0 <= m < j ==> as_ints(levels@)[sources[m]] < level,
                level > 0 ==> exists|m: int|
                    0 <= m < j && as_ints(levels@)[#[trigger] sources[m]] == level - 1,
            decreases preds.len() - j,
        {
            let p = preds[j];
            proof {
                assert(sources[j as int] == p as int);
                assert(sources.contains(p as int));
                lemma_incoming_sources(edges, node as int, p as int);
                lemma_edge_ends(slots, edges, p as int, node as int);
                assert(ord.contains(p as int));
                let q = ord.index_of(p as int);
                assert(ord[q] == p as int);
                assert(q < t);
                assert(settled(edges, as_ints(levels@), ord, q));
            }
            let candidate = levels[p] + 1;
            if candidate > level {
                level = candidate;
            }
            j += 1;
        }
        let ghost before = as_ints(levels@);
        levels.set(node, level);
        proof {
            let after = as_ints(levels@);
            assert(after =~= before.update(node as int, level as int));
            assert forall|q: int| 0 <= q <= t implies settled(edges, after, ord, q) by {
                assert(ord.contains(ord[q]));
                assert(is_node(slots, ord[q]));
                if q < t {
                    assert(settled(edges, before, ord, q));
                    assert(ord[q] != ord[t as int]);
                    assert(after[ord[q]] == before[ord[q]]);
                    assert forall|p: int| #[trigger] edges.contains((p, ord[q])) implies after[p]
                        == before[p] by {
                        lemma_edge_ends(slots, edges, p, ord[q]);
                        let qp = ord.index_of(p);
                        assert(ord[qp] == p);
                        assert(qp < q);
                    }
                    if before[ord[q]] > 0 {
                        let p = choose|p: int|
                            #[trigger] edges.contains((p, ord[q])) && before[p] == before[ord[q]]
                                - 1;
                        assert(edges.contains((p, ord[q])) && after[p] == after[ord[q]] - 1);
                    }
                } else {
                    assert forall|p: int| #[trigger] edges.contains((p, ord[q])) implies after[p]
                        < after[ord[q]] by {
                        lemma_incoming_sources(edges, node as int, p);
                        let m = sources.index_of(p);
                        assert(sources[m] == p);
                        lemma_edge_ends(slots, edges, p, node as int);
                        let qp = ord.index_of(p);
                        assert(ord[qp] == p);
                        assert(qp != t);
                        assert(after[p] == before[p]);
                    }
                    if level > 0 {
                        let m = choose|m: int|
                            0 <= m < sources.len() && before[#[trigger] sources[m]] == level - 1;
                        let p = sources[m];
                        assert(sources.contains(p));
                        lemma_incoming_sources(edges, node as int, p);
                        lemma_edge_ends(slots, edges, p, node as int);
                        let qp = ord.index_of(p);
                        assert(ord[qp] == p);
                        assert(qp != t);
                        assert(after[p] == before[p]);
                        assert(edges.contains((p, ord[q])) && after[p] == after[ord[q]] - 1);
                    }
                }
            }
        }
        t += 1;
    }
    proof {
        let level = as_ints(levels@);
        assert forall|n: int| is_node(slots, n) implies #[trigger] level[n] >= 0 && level[n]
            < order@.len() by {
            assert(ord.contains(n));
            let q = ord.index_of(n);
            assert(ord[q] == n);
            assert(settled(edges, level, ord, q));
        }
        assert forall|p: int, n: int| #[trigger] edges.contains((p, n)) implies level[p]
            < level[n] by {
            lemma_edge_ends(slots, edges, p, n);
            let q = ord.index_of(n);
            assert(ord[q] == n);
            assert(settled(edges, level, ord, q));
        }
        assert forall|n: int| is_node(slots, n) && #[trigger] level[n] > 0 implies exists|p: int|
            #[trigger] edges.contains((p, n)) && level[p] == level[n] - 1 by {
            let q = ord.index_of(n);
            assert(ord[q] == n);
            assert(settled(edges, level, ord, q));
        }
    }
    levels
}

/// The nodes of level `l` among the first `upto` indices, in ascending order.
pub open spec fn level_members(slots: Seq<bool>, level: Seq<int>, l: int, upto: int) -> Seq<int>
    decreases upto,
{
    if upto <= 0 {
        Seq::empty()
    } else {
        let before = level_members(slots, level, l, upto - 1);
        if is_node(slots, upto - 1) && level[upto - 1] == l {
            before.push(upto - 1)
        } else {
            before
        }
    }
}

/// The members of a level are its nodes, each once, in ascending order.
pub proof fn lemma_level_members(slots: Seq<bool>, level: Seq<int>, l: int, upto: int)
    requires
        upto <= slots.len(),
    ensures
        forall|i: int|
            0 <= i < level_members(slots, level, l, upto).len() ==> {
                let n = #[trigger] level_members(slots, level, l, upto)[i];
                0 <= n < upto && is_node(slots, n) && level[n] == l
            },
        forall|i: int, j: int|
            0 <= i < j < level_members(slots, level, l, upto).len() ==> level_members(
                slots,
                level,
                l,
                upto,
            )[i] < level_members(slots, level, l, upto)[j],
        forall|n: int|
            0 <= n < upto && is_node(slots, n) && level[n] == l ==> level_members(
                slots,
                level,
                l,
                upto,
            ).contains(n),
    decreases upto,
{
    if upto > 0 {
        lemma_level_members(slots, level, l, upto - 1);
        let before = level_members(slots, level, l, upto - 1);
        let now = level_members(slots, level, l, upto);
        assert forall|n: int| 0 <= n < upto && is_node(slots, n) && level[n] == l implies now.contains(
            n,
        ) by {
            if n < upto - 1 {
                let i = before.index_of(n);
                assert(before[i] == n);
                assert(now[i] == n);
            } else {
                assert(now[now.len() - 1] == n);
            }
        }
    }
}

/// A grouping of the nodes in eager layers: every node is in exactly one
/// group; within a group the indices ascend; an edge leads from an earlier
/// group to a later one; and every node beyond the first group has an edge
/// from the group just before its own. So the first group holds the nodes
/// without an edge into them, and every other node stands in the first group
/// that comes after all nodes with an edge to it.
pub open spec fn is_eager_grouping(
    slots: Seq<bool>,
    edges: Seq<(int, int)>,
    groups: Seq<Seq<int>>,
) -> bool {
    &&& forall|l: int| 0 <= l < groups.len() ==> (#[trigger] groups[l]).len() > 0
    &&& forall|l: int, i: int, j: int|
        0 <= l < groups.len() && 0 <= i < j < groups[l].len() ==> #[trigger] groups[l][i]
            < #[trigger] groups[l][j]
    &&& forall|l: int, i: int|
        0 <= l < groups.len() && 0 <= i < groups[l].len() ==> is_node(
            slots,
            #[trigger] groups[l][i],
        )
    &&& forall|n: int|
        is_node(slots, n) ==> exists|l: int|
            0 <= l < groups.len() && #[trigger] groups[l].contains(n)
    &&& forall|l: int, m: int, n: int|
        0 <= l < groups.len() && 0 <= m < groups.len() && #[trigger] groups[l].contains(n)
            && #[trigger] groups[m].contains(n) ==> l == m
    &&& forall|l: int, m: int, p: int, n: int|
        0 <= l < groups.len() && 0 <= m < groups.len() && #[trigger] groups[l].contains(p)
            && #[trigger] groups[m].contains(n) && edges.contains((p, n)) ==> l < m
    &&& forall|m: int, n: int|
        0 < m < groups.len() && #[trigger] groups[m].contains(n) ==> exists|p: int|
            #[trigger] edges.contains((p, n)) && groups[m - 1].contains(p)
}

/// The groups are the levels of a layering, none of them empty.
pub open spec fn groups_by_level(slots: Seq<bool>, level: Seq<int>, groups: Seq<Seq<int>>) -> bool {
    &&& forall|n: int| is_node(slots, n) ==> 0 <= #[trigger] level[n] < groups.len()
    &&& forall|l: int|
        0 <= l < groups.len() ==> #[trigger] groups[l] == level_members(
            slots,
            level,
            l,
            slots.len() as int,
        )
    &&& groups.len() > 0 ==> exists|n: int| is_node(slots, n) && level[n] == groups.len() - 1
}

/// Below an inhabited level every level is inhabited.
pub proof fn lemma_level_inhabited(
    slots: Seq<bool>,
    edges: Seq<(int, int)>,
    level: Seq<int>,
    n: int,
    l: int,
)
    requires
        is_layering(slots, edges, level),
        edges_between_nodes(slots, edges),
        is_node(slots, n),
        0 <= l <= level[n],
    ensures
        exists|m: int| is_node(slots, m) && level[m] == l,
    decreases level[n] - l,
{
    if level[n] > l {
        let p = choose|p: int| #[trigger] edges.contains((p, n)) && level[p] == level[n] - 1;
        lemma_edge_ends(slots, edges, p, n);
        lemma_level_inhabited(slots, edges, level, p, l);
    }
}

/// The levels of a layering, taken as groups, are an eager grouping.
pub proof fn lemma_groups_eager(
    slots: Seq<bool>,
    edges: Seq<(int, int)>,
    level: Seq<int>,
    groups: Seq<Seq<int>>,
)
    requires
        is_layering(slots, edges, level),
        edges_between_nodes(slots, edges),
        groups_by_level(slots, level, groups),
    ensures
        is_eager_grouping(slots, edges, groups),
{
    let n = slots.len() as int;
    assert forall|l: int| 0 <= l < groups.len() implies {
        &&& (#[trigger] groups[l]).len() > 0
        &&& forall|i: int, j: int| 0 <= i < j < groups[l].len() ==> groups[l][i] < groups[l][j]
        &&& forall|i: int|
            0 <= i < groups[l].len() ==> is_node(slots, groups[l][i]) && level[groups[l][i]] == l
        &&& forall|m: int| is_node(slots, m) && level[m] == l ==> groups[l].contains(m)
    } by {
        lemma_level_members(slots, level, l, n);
        let top = choose|m: int| is_node(slots, m) && level[m] == groups.len() - 1;
        lemma_level_inhabited(slots, edges, level, top, l);
        let m = choose|m: int| is_node(slots, m) && level[m] == l;
        assert(groups[l].contains(m));
    }
    assert forall|l: int, x: int| 0 <= l < groups.len() && #[trigger] groups[l].contains(
        x,
    ) implies is_node(slots, x) && level[x] == l by {
        let i = groups[l].index_of(x);
        assert(groups[l][i] == x);
    }
    assert forall|x: int| is_node(slots, x) implies exists|l: int|
        0 <= l < groups.len() && #[trigger] groups[l].contains(x) by {
        assert(groups[level[x]].contains(x));
    }
    assert forall|m: int, x: int| 0 < m < groups.len() && #[trigger] groups[m].contains(
        x,
    ) implies exists|p: int| #[trigger] edges.contains((p, x)) && groups[m - 1].contains(p) by {
        assert(is_node(slots, x) && level[x] == m);
        let p = choose|p: int| #[trigger] edges.contains((p, x)) && level[p] == level[x] - 1;
        lemma_edge_ends(slots, edges, p, x);
        assert(groups[m - 1].contains(p));
    }
}

/// The groups of an eager layering with the given levels.
pub(crate) fn collect_groups(alive: &Vec<bool>, levels: &Vec<usize>) -> (groups: Vec<Vec<usize>>)
    requires
        alive@.len() == levels@.len(),
        forall|m: int| is_node(alive@, m) ==> #[trigger] levels@[m] < usize::MAX,
    ensures
        groups_by_level(alive@, as_ints(levels@), group_views(groups@)),
{
    let n = alive.len();
    let ghost level = as_ints(levels@);
    let mut count: usize = 0;
    let mut i: usize = 0;
    while i < n
        invariant
            i <= n,
            n == alive@.len(),
            n == levels@.len(),
            level == as_ints(levels@),
            forall|m: int| is_node(alive@, m) ==> #[trigger] levels@[m] < usize::MAX,
            forall|m: int| 0 <= m < i && is_node(alive@, m) ==> 0 <= #[trigger] level[m] < count,
            count > 0 ==> exists|m: int| is_node(alive@, m) && level[m] == count - 1,
        decreases n - i,
    {
        if alive[i] && levels[i] >= count {
            assert(level[i as int] == levels@[i as int]);
            assert(is_node(alive@, i as int));
            count = levels[i] + 1;
        }
        i += 1;
    }
    let mut groups: Vec<Vec<usize>> = Vec::new();
    let mut l: usize = 0;
    while l < count
        invariant
            l <= count,
            n == alive@.len(),
            n == levels@.len(),
            level == as_ints(levels@),
            groups@.len() == l,
            forall|k: int|
                0 <= k < l ==> as_ints(#[trigger] groups@[k]@) == level_members(
                    alive@,
                    level,
                    k,
                    n as int,
                ),
        decreases count - l,
    {
        let mut group: Vec<usize> = Vec::new();
        let mut i: usize = 0;
        assert(as_ints(group@) =~= level_members(alive@, level, l as int, 0));
        while i < n
            invariant
                i <= n,
                n == alive@.len(),
                n == levels@.len(),
                level == as_ints(levels@),
                as_ints(group@) == level_members(alive@, level, l as int, i as int),
            decreases n - i,
        {
            assert(level[i as int] == levels@[i as int]);
            if alive[i] && levels[i] == l {
                assert(as_ints(group@.push(i)) =~= as_ints(group@).push(i as int));
                group.push(i);
            }
            i += 1;
        }
        groups.push(group);
        l += 1;
    }
    proof {
        let views = group_views(groups@);
        assert forall|k: int| 0 <= k < views.len() implies #[trigger] views[k] == level_members(
            alive@,
            level,
            k,
            alive@.len() as int,
        ) by {
            assert(views[k] == as_ints(groups@[k]@));
        }
    }
    groups
}

/// Groups of indices as groups of integers.
pub open spec fn group_views(groups: Seq<Vec<usize>>) -> Seq<Seq<int>> {
    Seq::new(groups.len(), |l: int| as_ints(groups[l]@))
}

} // verus!
