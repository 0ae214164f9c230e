use crate::column_graph::{has_cycle, NodeView};
use crate::graph_plan::{
    built_edges, built_nodes, column_nodes, feed_edges, first_target, first_unresolved, is_target,
    key_nodes, lemma_representative, merged_edges, plan_of, planned_node, processed_edges,
    representative, synthetic_parser, target_of, BuiltNode,
};
use crate::identifier::ColumnName;
use crate::table_mapper::{ColumnView, LookupKeyView};
use crate::topology::{incoming_sources, is_path, on_cycle};
use vstd::prelude::*;

verus! {

/// How the node at `i` came to be: a column of the mapper, which was added
/// for no other node; a lookup key, which was added for its lookup; or a
/// synthetic parser, which was added for the parser key just before it.
pub open spec fn node_in_place(built: Seq<BuiltNode>, i: int) -> bool {
    match built[i].feeds {
        None => built[i].node.is_column() && !built[i].synthetic,
        Some(t) => 0 <= t < i && if built[i].synthetic {
            t == i - 1 && built[t].node is ParserKey && built[i].node == synthetic_parser(
                built[t].node->ParserKey_0,
            )
        } else {
            !built[i].node.is_column() && built[t].node is Lookup
        },
    }
}

/// Every node is in its place.
pub open spec fn nodes_in_place(built: Seq<BuiltNode>) -> bool {
    forall|i: int| 0 <= i < built.len() ==> node_in_place(built, i)
}

/// What the nodes of the keys of a lookup are like: a key feeds the lookup,
/// a synthetic parser the parser key before it.
pub open spec fn key_node_in_place(nodes: Seq<BuiltNode>, lookup: int, j: int) -> bool {
    match nodes[j].feeds {
        None => false,
        Some(t) => if nodes[j].synthetic {
            j >= 1 && t == lookup + j && nodes[j - 1].node is ParserKey && nodes[j].node
                == synthetic_parser(nodes[j - 1].node->ParserKey_0)
        } else {
            t == lookup && !nodes[j].node.is_column()
        },
    }
}

pub proof fn lemma_key_nodes(keys: Seq<LookupKeyView>, lookup: int)
    ensures
        forall|j: int|
            0 <= j < key_nodes(keys, lookup).len() ==> key_node_in_place(
                key_nodes(keys, lookup),
                lookup,
                j,
            ),
    decreases keys.len(),
{
    if keys.len() > 0 {
        lemma_key_nodes(keys.drop_last(), lookup);
        let before = key_nodes(keys.drop_last(), lookup);
        let now = key_nodes(keys, lookup);
        assert forall|j: int| 0 <= j < now.len() implies key_node_in_place(now, lookup, j) by {
            if j < before.len() {
                assert(now[j] == before[j]);
                assert(key_node_in_place(before, lookup, j));
                if j >= 1 {
                    assert(now[j - 1] == before[j - 1]);
                }
            }
        }
    }
}

/// The nodes that the columns of a mapper give rise to are all in place.
pub proof fn lemma_built_in_place(columns: Seq<ColumnView>)
    ensures
        nodes_in_place(built_nodes(columns)),
    decreases columns.len(),
{
    if columns.len() > 0 {
        lemma_built_in_place(columns.drop_last());
        let before = built_nodes(columns.drop_last());
        let base = before.len() as int;
        let added = column_nodes(columns.last(), base);
        let built = built_nodes(columns);
        assert(built == before + added);
        if let ColumnView::Lookup(c) = columns.last() {
            lemma_key_nodes(c.keys, base);
        }
        assert forall|i: int| 0 <= i < built.len() implies node_in_place(built, i) by {
            if i < base {
                assert(built[i] == before[i]);
                assert(node_in_place(before, i));
                if let Some(t) = before[i].feeds {
                    assert(built[t] == before[t]);
                }
            } else {
                let j = i - base;
                assert(built[i] == added[j]);
                match columns.last() {
                    ColumnView::Lookup(c) => {
                        let keys = key_nodes(c.keys, base);
                        if j > 0 {
                            assert(added[j] == keys[j - 1]);
                            assert(key_node_in_place(keys, base, j - 1));
                            assert(built[base] == added[0]);
                            if keys[j - 1].synthetic {
                                assert(added[j - 1] == keys[j - 2]);
                                assert(built[i - 1] == added[j - 1]);
                            }
                        }
                    },
                    _ => {},
                }
            }
        }
    }
}

/// An edge to the node that a node was added for runs from that node.
pub proof fn lemma_feed_edge(built: Seq<BuiltNode>, upto: int, a: int, b: int)
    requires
        feed_edges(built, upto).contains((a, b)),
    ensures
        0 <= a < upto,
        built[a].feeds == Some(b),
    decreases upto,
{
    if upto > 0 {
        let before = feed_edges(built, upto - 1);
        let all = feed_edges(built, upto);
        let i = all.index_of((a, b));
        assert(all[i] == (a, b));
        if i < before.len() {
            assert(before[i] == (a, b));
            lemma_feed_edge(built, upto - 1, a, b);
        }
    }
}

/// An edge into a processed key runs from the column that the key is matched
/// with.
pub proof fn lemma_processed_edge(built: Seq<BuiltNode>, upto: int, a: int, b: int)
    requires
        processed_edges(built, upto).contains((a, b)),
    ensures
        0 <= b < upto,
        built[b].node is ProcessedKey,
        target_of(built, b) == Some(a),
    decreases upto,
{
    if upto > 0 {
        let before = processed_edges(built, upto - 1);
        let all = processed_edges(built, upto);
        let i = all.index_of((a, b));
        assert(all[i] == (a, b));
        if i < before.len() {
            assert(before[i] == (a, b));
            lemma_processed_edge(built, upto - 1, a, b);
        }
    }
}

/// Every processed key that points at a column has the edge from it.
pub proof fn lemma_processed_edge_exists(built: Seq<BuiltNode>, upto: int, k: int)
    requires
        0 <= k < upto,
        built[k].node is ProcessedKey,
        target_of(built, k) is Some,
    ensures
        processed_edges(built, upto).contains((target_of(built, k)->0, k)),
    decreases upto,
{
    let all = processed_edges(built, upto);
    let before = processed_edges(built, upto - 1);
    if k == upto - 1 {
        assert(all[all.len() - 1] == (target_of(built, k)->0, k));
    } else {
        lemma_processed_edge_exists(built, upto - 1, k);
        let i = before.index_of((target_of(built, k)->0, k));
        assert(before[i] == (target_of(built, k)->0, k));
        assert(all[i] == before[i]);
    }
}

/// What a processed key points at can be pointed at.
pub proof fn lemma_first_target(built: Seq<BuiltNode>, target: ColumnName, j: int)
    requires
        0 <= j,
    ensures
        first_target(built, target, j) matches Some(t) ==> j <= t < built.len() && is_target(
            built,
            t,
            target,
        ),
    decreases built.len() - j,
{
    if j < built.len() && !is_target(built, j, target) {
        lemma_first_target(built, target, j + 1);
    }
}

/// Where no processed key is unresolved, each points at a column.
pub proof fn lemma_all_resolved(built: Seq<BuiltNode>, from: int, k: int)
    requires
        0 <= from <= k < built.len(),
        first_unresolved(built, from) is None,
        built[k].node is ProcessedKey,
    ensures
        target_of(built, k) is Some,
    decreases k - from,
{
    if from < k {
        lemma_all_resolved(built, from + 1, k);
    }
}

/// The merged edges are the edges between the representatives of the ends of
/// the edges, none twice.
pub proof fn lemma_merged_edges(edges: Seq<(int, int)>, built: Seq<BuiltNode>, optimize: bool)
    ensures
        merged_edges(edges, built, optimize).no_duplicates(),
        forall|e: (int, int)|
            merged_edges(edges, built, optimize).contains(e) ==> exists|i: int|
                0 <= i < edges.len() && e == (
                    representative(built, optimize, (#[trigger] edges[i]).0),
                    representative(built, optimize, edges[i].1),
                ),
        forall|i: int|
            0 <= i < edges.len() ==> merged_edges(edges, built, optimize).contains(
                (
                    representative(built, optimize, (#[trigger] edges[i]).0),
                    representative(built, optimize, edges[i].1),
                ),
            ),
    decreases edges.len(),
{
    if edges.len() > 0 {
        let rest = edges.drop_last();
        lemma_merged_edges(rest, built, optimize);
        let before = merged_edges(rest, built, optimize);
        let all = merged_edges(edges, built, optimize);
        let last = (
            representative(built, optimize, edges.last().0),
            representative(built, optimize, edges.last().1),
        );
        assert forall|e: (int, int)| all.contains(e) implies exists|i: int|
            0 <= i < edges.len() && e == (
                representative(built, optimize, (#[trigger] edges[i]).0),
                representative(built, optimize, edges[i].1),
            ) by {
            let w = all.index_of(e);
            assert(all[w] == e);
            if w < before.len() {
                assert(before[w] == e);
                assert(before.contains(e));
                let i = choose|i: int|
                    0 <= i < rest.len() && e == (
                        representative(built, optimize, (#[trigger] rest[i]).0),
                        representative(built, optimize, rest[i].1),
                    );
                assert(edges[i] == rest[i]);
            } else {
                assert(e == last);
                assert(edges[edges.len() - 1] == edges.last());
            }
        }
        assert forall|i: int| 0 <= i < edges.len() implies all.contains(
            (
                representative(built, optimize, (#[trigger] edges[i]).0),
                representative(built, optimize, edges[i].1),
            ),
        ) by {
            let e = (
                representative(built, optimize, edges[i].0),
                representative(built, optimize, edges[i].1),
            );
            if i < rest.len() {
                assert(rest[i] == edges[i]);
                let w = before.index_of(e);
                assert(before[w] == e);
                assert(all[w] == e);
            } else {
                if before.contains(last) {
                    let w = before.index_of(last);
                    assert(before[w] == last);
                } else {
                    assert(all[all.len() - 1] == last);
                }
            }
        }
        if !before.contains(last) {
            assert forall|a: int, b: int| 0 <= a < all.len() && 0 <= b < all.len() && a
                != b implies all[a] != all[b] by {
                if a < before.len() && b < before.len() {
                } else if a < before.len() {
                    assert(before.contains(before[a]));
                } else {
                    assert(before.contains(before[b]));
                }
            }
        }
    }
}

/// A merged edge runs between the representatives of the ends of an edge.
pub proof fn lemma_merged_member(
    edges: Seq<(int, int)>,
    built: Seq<BuiltNode>,
    optimize: bool,
    e: (int, int),
) -> (i: int)
    requires
        merged_edges(edges, built, optimize).contains(e),
    ensures
        0 <= i < edges.len(),
        e == (
            representative(built, optimize, edges[i].0),
            representative(built, optimize, edges[i].1),
        ),
{
    lemma_merged_edges(edges, built, optimize);
    choose|i: int|
        0 <= i < edges.len() && e == (
            representative(built, optimize, (#[trigger] edges[i]).0),
            representative(built, optimize, edges[i].1),
        )
}

/// Between the representatives of the ends of an edge runs a merged edge.
pub proof fn lemma_merged_has(
    edges: Seq<(int, int)>,
    built: Seq<BuiltNode>,
    optimize: bool,
    a: int,
    b: int,
)
    requires
        edges.contains((a, b)),
    ensures
        merged_edges(edges, built, optimize).contains(
            (representative(built, optimize, a), representative(built, optimize, b)),
        ),
{
    lemma_merged_edges(edges, built, optimize);
    let i = edges.index_of((a, b));
    assert(edges[i] == (a, b));
}

/// Where every edge into `n` comes from `p` and no edge is there twice, at
/// most `p` has an edge to `n`.
pub proof fn lemma_single_incoming(edges: Seq<(int, int)>, n: int, p: int)
    requires
        edges.no_duplicates(),
        forall|i: int| 0 <= i < edges.len() && (#[trigger] edges[i]).1 == n ==> edges[i].0 == p,
    ensures
        incoming_sources(edges, n) == if edges.contains((p, n)) {
            seq![p]
        } else {
            Seq::<int>::empty()
        },
    decreases edges.len(),
{
    if edges.len() > 0 {
        let rest = edges.drop_last();
        assert forall|i: int| 0 <= i < rest.len() && (#[trigger] rest[i]).1 == n implies rest[i].0
            == p by {
            assert(rest[i] == edges[i]);
        }
        assert(rest.no_duplicates()) by {
            assert forall|a: int, b: int| 0 <= a < rest.len() && 0 <= b < rest.len() && a
                != b implies rest[a] != rest[b] by {
                assert(rest[a] == edges[a] && rest[b] == edges[b]);
            }
        }
        lemma_single_incoming(rest, n, p);
        let last = edges[edges.len() - 1];
        if last.1 == n {
            assert(last == (p, n));
            if rest.contains((p, n)) {
                let w = rest.index_of((p, n));
                assert(edges[w] == rest[w]);
                assert(false);
            }
            assert(edges.contains((p, n)));
            assert(seq![p] + Seq::<int>::empty() =~= seq![p]);
        } else {
            if edges.contains((p, n)) {
                let w = edges.index_of((p, n));
                assert(edges[w] == (p, n));
                assert(rest[w] == edges[w]);
                assert(rest.contains((p, n)));
            }
            if rest.contains((p, n)) {
                let w = rest.index_of((p, n));
                assert(edges[w] == rest[w]);
            }
        }
    } else {
        assert(!edges.contains((p, n)));
    }
}

/// In the graph of a table mapper every processed key has exactly one edge
/// into it, and that edge comes from the node that stands for a column of
/// the mapper of the name that the key points at: a column that the profile
/// names, not the synthetic parser of a parser key.
pub proof fn lemma_processed_key_upstream(columns: Seq<ColumnView>, optimize: bool, k: int)
    requires
        plan_of(columns, optimize) is Ok,
        0 <= k < plan_of(columns, optimize)->Ok_0.nodes.len(),
        plan_of(columns, optimize)->Ok_0.nodes[k] matches Some(node) && node is ProcessedKey,
    ensures
        ({
            let built = built_nodes(columns);
            let plan = plan_of(columns, optimize)->Ok_0;
            let key = plan.nodes[k]->0->ProcessedKey_0;
            exists|t: int|
                0 <= t < built.len() && #[trigger] is_target(built, t, key.target)
                    && incoming_sources(plan.edges, k) == seq![representative(built, optimize, t)]
        }),
{
    let built = built_nodes(columns);
    let plan = plan_of(columns, optimize)->Ok_0;
    let n = built.len() as int;
    assert(plan.nodes[k] == planned_node(built, optimize, k));
    assert(representative(built, optimize, k) == k);
    assert(built[k].node is ProcessedKey);
    let key = built[k].node->ProcessedKey_0;
    assert(plan.nodes[k]->0->ProcessedKey_0 == key);
    lemma_all_resolved(built, 0, k);
    lemma_first_target(built, key.target, 0);
    let t = target_of(built, k)->0;
    let source = representative(built, optimize, t);
    let edges = built_edges(built);
    lemma_built_in_place(columns);
    lemma_merged_edges(edges, built, optimize);
    assert forall|i: int| 0 <= i < plan.edges.len() && (#[trigger] plan.edges[i]).1
        == k implies plan.edges[i].0 == source by {
        let e = plan.edges[i];
        assert(plan.edges.contains(e));
        let w = choose|w: int|
            0 <= w < edges.len() && e == (
                representative(built, optimize, (#[trigger] edges[w]).0),
                representative(built, optimize, edges[w].1),
            );
        let a = edges[w].0;
        let b = edges[w].1;
        let feed = feed_edges(built, n);
        let processed = processed_edges(built, n);
        if w < feed.len() {
            assert(feed[w] == (a, b));
            assert(feed.contains((a, b)));
            lemma_feed_edge(built, n, a, b);
            assert(node_in_place(built, a));
            lemma_representative(built, optimize, b);
            assert(built[b].node.content() == built[k].node.content());
            assert(false);
        } else {
            assert(processed[w - feed.len()] == (a, b));
            assert(processed.contains((a, b)));
            lemma_processed_edge(built, n, a, b);
            lemma_representative(built, optimize, b);
            assert(built[b].node.content() == built[k].node.content());
            assert(built[b].node->ProcessedKey_0 == key);
            assert(a == t);
        }
    }
    lemma_single_incoming(plan.edges, k, source);
    lemma_processed_edge_exists(built, n, k);
    let processed = processed_edges(built, n);
    let feed = feed_edges(built, n);
    let at = processed.index_of((t, k));
    assert(processed[at] == (t, k));
    assert(edges[feed.len() + at] == (t, k));
    assert(plan.edges.contains((source, k)));
    assert(is_target(built, t, key.target));
}

/// The node of a lookup key.
pub open spec fn key_node_view(key: LookupKeyView) -> NodeView {
    match key {
        LookupKeyView::Parser(k) => NodeView::ParserKey(k),
        LookupKeyView::Processed(k) => NodeView::ProcessedKey(k),
    }
}

/// Behind a parser key among the nodes of the keys of a lookup stands its
/// synthetic parser.
pub proof fn lemma_key_parser_follows(keys: Seq<LookupKeyView>, lookup: int, j: int)
    requires
        0 <= j < key_nodes(keys, lookup).len(),
        key_nodes(keys, lookup)[j].node is ParserKey,
    ensures
        j + 1 < key_nodes(keys, lookup).len(),
        key_nodes(keys, lookup)[j + 1].synthetic,
        key_nodes(keys, lookup)[j + 1].feeds == Some(lookup + 1 + j),
        key_nodes(keys, lookup)[j + 1].node == synthetic_parser(
            key_nodes(keys, lookup)[j].node->ParserKey_0,
        ),
    decreases keys.len(),
{
    let rest = keys.drop_last();
    let before = key_nodes(rest, lookup);
    let now = key_nodes(keys, lookup);
    if j < before.len() {
        assert(now[j] == before[j]);
        lemma_key_parser_follows(rest, lookup, j);
        assert(now[j + 1] == before[j + 1]);
    }
}

/// A node among the nodes of the keys of a lookup that is no synthetic
/// parser feeds the lookup and stands for one of the keys.
pub proof fn lemma_key_stands_for(keys: Seq<LookupKeyView>, lookup: int, j: int) -> (m: int)
    requires
        0 <= j < key_nodes(keys, lookup).len(),
        !key_nodes(keys, lookup)[j].synthetic,
    ensures
        0 <= m < keys.len(),
        key_nodes(keys, lookup)[j].feeds == Some(lookup),
        key_nodes(keys, lookup)[j].node == key_node_view(keys[m]),
    decreases keys.len(),
{
    let rest = keys.drop_last();
    let before = key_nodes(rest, lookup);
    let now = key_nodes(keys, lookup);
    if j < before.len() {
        assert(now[j] == before[j]);
        let m = lemma_key_stands_for(rest, lookup, j);
        assert(keys[m] == rest[m]);
        m
    } else {
        keys.len() - 1
    }
}

/// Each key of a lookup has its node among the nodes of the keys.
pub proof fn lemma_key_has_node(keys: Seq<LookupKeyView>, lookup: int, m: int) -> (j: int)
    requires
        0 <= m < keys.len(),
    ensures
        0 <= j < key_nodes(keys, lookup).len(),
        !key_nodes(keys, lookup)[j].synthetic,
        key_nodes(keys, lookup)[j].feeds == Some(lookup),
        key_nodes(keys, lookup)[j].node == key_node_view(keys[m]),
    decreases keys.len(),
{
    let rest = keys.drop_last();
    let before = key_nodes(rest, lookup);
    let now = key_nodes(keys, lookup);
    if m < rest.len() {
        assert(keys[m] == rest[m]);
        let j = lemma_key_has_node(rest, lookup, m);
        assert(now[j] == before[j]);
        j
    } else {
        before.len() as int
    }
}

/// No node among the nodes of the keys of a lookup is a lookup.
pub proof fn lemma_key_is_no_lookup(keys: Seq<LookupKeyView>, lookup: int, j: int)
    requires
        0 <= j < key_nodes(keys, lookup).len(),
    ensures
        !(key_nodes(keys, lookup)[j].node is Lookup),
        key_nodes(keys, lookup)[j].feeds is Some,
        key_nodes(keys, lookup)[j].node is ParserKey ==> !key_nodes(keys, lookup)[j].synthetic,
    decreases keys.len(),
{
    let rest = keys.drop_last();
    let before = key_nodes(rest, lookup);
    let now = key_nodes(keys, lookup);
    if j < before.len() {
        assert(now[j] == before[j]);
        lemma_key_is_no_lookup(rest, lookup, j);
    }
}

/// The nodes of the keys of the lookup at `l` follow it directly.
pub open spec fn keys_follow(built: Seq<BuiltNode>, l: int) -> bool {
    let block = key_nodes(built[l].node->Lookup_column.keys, l);
    &&& l + 1 + block.len() <= built.len()
    &&& forall|j: int| 0 <= j < block.len() ==> #[trigger] built[l + 1 + j] == block[j]
}

/// The node at `i`, a lookup key, stands among the keys of its lookup.
pub open spec fn key_in_block(built: Seq<BuiltNode>, i: int) -> bool {
    let l = built[i].feeds->0;
    &&& 0 <= l < i
    &&& built[l].node is Lookup
    &&& i <= l + key_nodes(built[l].node->Lookup_column.keys, l).len()
}

/// Behind the parser key at `i` stands its synthetic parser.
pub open spec fn parser_follows(built: Seq<BuiltNode>, i: int) -> bool {
    &&& i + 1 < built.len()
    &&& built[i + 1].synthetic
    &&& built[i + 1].feeds == Some(i)
    &&& built[i + 1].node == synthetic_parser(built[i].node->ParserKey_0)
}

/// The nodes of one column: the column, and behind a lookup the nodes of its
/// keys.
pub proof fn lemma_column_nodes(column: ColumnView, index: int)
    ensures
        column_nodes(column, index).len() >= 1,
        column_nodes(column, index)[0].feeds is None,
        column_nodes(column, index)[0].node.is_column(),
        !column_nodes(column, index)[0].synthetic,
        column matches ColumnView::Lookup(c) ==> column_nodes(column, index)[0].node
            == (NodeView::Lookup { column: c, map: false }) && column_nodes(column, index).len()
            == 1 + key_nodes(c.keys, index).len() && forall|j: int|
            0 <= j < key_nodes(c.keys, index).len() ==> #[trigger] column_nodes(column, index)[1
                + j] == key_nodes(c.keys, index)[j],
        !(column is Lookup) ==> column_nodes(column, index).len() == 1 && !(column_nodes(
            column,
            index,
        )[0].node is Lookup),
{
}

/// The keys of every lookup follow it.
pub proof fn lemma_keys_follow(columns: Seq<ColumnView>, l: int)
    requires
        0 <= l < built_nodes(columns).len(),
        built_nodes(columns)[l].node is Lookup,
    ensures
        keys_follow(built_nodes(columns), l),
    decreases columns.len(),
{
    let before = built_nodes(columns.drop_last());
    let base = before.len() as int;
    let added = column_nodes(columns.last(), base);
    let built = built_nodes(columns);
    assert(built == before + added);
    lemma_column_nodes(columns.last(), base);
    if l < base {
        assert(built[l] == before[l]);
        lemma_keys_follow(columns.drop_last(), l);
        let block = key_nodes(before[l].node->Lookup_column.keys, l);
        assert forall|j: int| 0 <= j < block.len() implies #[trigger] built[l + 1 + j]
            == block[j] by {
            assert(before[l + 1 + j] == block[j]);
            assert(built[l + 1 + j] == before[l + 1 + j]);
        }
    } else {
        assert(built[l] == added[l - base]);
        if l > base {
            let c = columns.last()->Lookup_0;
            assert(added[1 + (l - base - 1)] == key_nodes(c.keys, base)[l - base - 1]);
            lemma_key_is_no_lookup(c.keys, base, l - base - 1);
        } else {
            let c = columns.last()->Lookup_0;
            let block = key_nodes(c.keys, base);
            assert forall|j: int| 0 <= j < block.len() implies #[trigger] built[l + 1 + j]
                == block[j] by {
                assert(built[base + 1 + j] == added[1 + j]);
            }
        }
    }
}

/// Every lookup key stands among the keys of its lookup.
pub proof fn lemma_key_in_block(columns: Seq<ColumnView>, i: int)
    requires
        0 <= i < built_nodes(columns).len(),
        !built_nodes(columns)[i].synthetic,
        built_nodes(columns)[i].feeds is Some,
    ensures
        key_in_block(built_nodes(columns), i),
    decreases columns.len(),
{
    let before = built_nodes(columns.drop_last());
    let base = before.len() as int;
    let added = column_nodes(columns.last(), base);
    let built = built_nodes(columns);
    assert(built == before + added);
    lemma_column_nodes(columns.last(), base);
    if i < base {
        assert(built[i] == before[i]);
        lemma_key_in_block(columns.drop_last(), i);
        let l = before[i].feeds->0;
        assert(built[l] == before[l]);
    } else {
        assert(built[i] == added[i - base]);
        assert(i > base);
        let c = columns.last()->Lookup_0;
        let j = i - base - 1;
        assert(added[1 + j] == key_nodes(c.keys, base)[j]);
        let m = lemma_key_stands_for(c.keys, base, j);
        assert(built[base] == added[0]);
    }
}

/// Behind every parser key stands its synthetic parser.
pub proof fn lemma_parser_follows(columns: Seq<ColumnView>, i: int)
    requires
        0 <= i < built_nodes(columns).len(),
        built_nodes(columns)[i].node is ParserKey,
    ensures
        parser_follows(built_nodes(columns), i),
    decreases columns.len(),
{
    let before = built_nodes(columns.drop_last());
    let base = before.len() as int;
    let added = column_nodes(columns.last(), base);
    let built = built_nodes(columns);
    assert(built == before + added);
    lemma_column_nodes(columns.last(), base);
    if i < base {
        assert(built[i] == before[i]);
        lemma_parser_follows(columns.drop_last(), i);
        assert(built[i + 1] == before[i + 1]);
    } else {
        assert(built[i] == added[i - base]);
        assert(i > base);
        let c = columns.last()->Lookup_0;
        let j = i - base - 1;
        assert(added[1 + j] == key_nodes(c.keys, base)[j]);
        lemma_key_parser_follows(c.keys, base, j);
        assert(added[1 + (j + 1)] == key_nodes(c.keys, base)[j + 1]);
        assert(built[i + 1] == added[i + 1 - base]);
    }
}

/// A node has the edge to the node that it was added for.
pub proof fn lemma_feed_edge_exists(built: Seq<BuiltNode>, upto: int, a: int)
    requires
        0 <= a < upto,
        built[a].feeds is Some,
    ensures
        feed_edges(built, upto).contains((a, built[a].feeds->0)),
    decreases upto,
{
    let all = feed_edges(built, upto);
    let before = feed_edges(built, upto - 1);
    let e = (a, built[a].feeds->0);
    if a == upto - 1 {
        assert(all[all.len() - 1] == e);
    } else {
        lemma_feed_edge_exists(built, upto - 1, a);
        let i = before.index_of(e);
        assert(before[i] == e);
        assert(all[i] == before[i]);
    }
}

/// Duplicates have the same nodes before them: where a node has an edge into
/// it, each node of the same content has an edge into it from a node of the
/// content of the first edge's source.
pub proof fn lemma_edges_of_duplicates(columns: Seq<ColumnView>, a: int, b: int, other: int)
    requires
        first_unresolved(built_nodes(columns), 0) is None,
        built_edges(built_nodes(columns)).contains((a, b)),
        0 <= other < built_nodes(columns).len(),
        0 <= b < built_nodes(columns).len(),
        built_nodes(columns)[other].node.content() == built_nodes(columns)[b].node.content(),
    ensures
        exists|source: int|
            0 <= source < built_nodes(columns).len() && #[trigger] built_edges(
                built_nodes(columns),
            ).contains((source, other)) && built_nodes(columns)[source].node.content()
                == built_nodes(columns)[a].node.content(),
{
    let built = built_nodes(columns);
    let n = built.len() as int;
    let edges = built_edges(built);
    let feed = feed_edges(built, n);
    let processed = processed_edges(built, n);
    lemma_built_in_place(columns);
    let w = edges.index_of((a, b));
    assert(edges[w] == (a, b));
    if w < feed.len() {
        assert(feed[w] == (a, b));
        assert(feed.contains((a, b)));
        lemma_feed_edge(built, n, a, b);
        assert(node_in_place(built, a));
        if built[a].synthetic {
            assert(built[b].node is ParserKey);
            assert(built[other].node == built[b].node);
            lemma_parser_follows(columns, other);
            let source = other + 1;
            lemma_feed_edge_exists(built, n, source);
            let at = feed.index_of((source, other));
            assert(feed[at] == (source, other));
            assert(edges[at] == (source, other));
            assert(built[source].node == built[a].node);
            assert(0 <= source < built.len() && edges.contains((source, other))
                && built[source].node.content() == built[a].node.content());
        } else {
            lemma_key_in_block(columns, a);
            lemma_keys_follow(columns, b);
            assert(built[other].node is Lookup);
            lemma_keys_follow(columns, other);
            let keys = built[b].node->Lookup_column.keys;
            assert(built[other].node->Lookup_column.content() == built[b].node->Lookup_column.content());
            assert(built[other].node->Lookup_column.keys == keys);
            let block = key_nodes(keys, b);
            let there = key_nodes(keys, other);
            let j = a - b - 1;
            assert(built[b + 1 + j] == block[j]);
            let m = lemma_key_stands_for(keys, b, j);
            let j2 = lemma_key_has_node(keys, other, m);
            let source = other + 1 + j2;
            assert(built[other + 1 + j2] == there[j2]);
            assert(built[source].feeds == Some(other));
            lemma_feed_edge_exists(built, n, source);
            let at = feed.index_of((source, other));
            assert(feed[at] == (source, other));
            assert(edges[at] == (source, other));
            assert(built[source].node == built[a].node);
            assert(0 <= source < built.len() && edges.contains((source, other))
                && built[source].node.content() == built[a].node.content());
        }
    } else {
        assert(processed[w - feed.len()] == (a, b));
        assert(processed.contains((a, b)));
        lemma_processed_edge(built, n, a, b);
        assert(built[other].node == built[b].node);
        lemma_processed_edge_exists(built, n, other);
        let at = processed.index_of((a, other));
        assert(processed[at] == (a, other));
        assert(edges[feed.len() + at] == (a, other));
        lemma_first_target(built, built[b].node->ProcessedKey_0.target, 0);
        assert(0 <= a < built.len() && edges.contains((a, other)) && built[a].node.content()
            == built[a].node.content());
    }
}

/// Whether a path along the edges leads from `s` to `t`. A node reaches
/// itself.
pub open spec fn reaches(edges: Seq<(int, int)>, s: int, t: int) -> bool {
    exists|path: Seq<int>| is_path(edges, path) && path[0] == s && #[trigger] path.last() == t
}

/// What the nodes from which a path leads to `t` are, without regard to
/// their indices and to whether they are written to the target.
pub open spec fn reachable_contents(built: Seq<BuiltNode>, edges: Seq<(int, int)>, t: int) -> Set<
    NodeView,
> {
    Set::new(
        |c: NodeView|
            exists|s: int|
                0 <= s < built.len() && reaches(edges, s, t) && #[trigger] built[s].node.content()
                    == c,
    )
}

/// Both ends of a built edge are nodes.
pub proof fn lemma_built_edge_ends(columns: Seq<ColumnView>, a: int, b: int)
    requires
        built_edges(built_nodes(columns)).contains((a, b)),
    ensures
        0 <= a < built_nodes(columns).len(),
        0 <= b < built_nodes(columns).len(),
{
    let built = built_nodes(columns);
    let n = built.len() as int;
    let edges = built_edges(built);
    let feed = feed_edges(built, n);
    let processed = processed_edges(built, n);
    lemma_built_in_place(columns);
    let w = edges.index_of((a, b));
    assert(edges[w] == (a, b));
    if w < feed.len() {
        assert(feed[w] == (a, b));
        assert(feed.contains((a, b)));
        lemma_feed_edge(built, n, a, b);
        assert(node_in_place(built, a));
    } else {
        assert(processed[w - feed.len()] == (a, b));
        assert(processed.contains((a, b)));
        lemma_processed_edge(built, n, a, b);
        lemma_first_target(built, built[b].node->ProcessedKey_0.target, 0);
    }
}

/// A path between merged nodes has a path between the nodes as they were
/// built: to each node of the content of the end of the path leads a path
/// from a node of the content of its start.
pub proof fn lemma_path_before_merging(columns: Seq<ColumnView>, path: Seq<int>, end: int)
    requires
        first_unresolved(built_nodes(columns), 0) is None,
        is_path(merged_edges(built_edges(built_nodes(columns)), built_nodes(columns), true), path),
        0 <= end < built_nodes(columns).len(),
        0 <= path[0] < built_nodes(columns).len(),
        0 <= path.last() < built_nodes(columns).len(),
        built_nodes(columns)[end].node.content() == built_nodes(columns)[path.last()].node.content(),
    ensures
        exists|start: int|
            0 <= start < built_nodes(columns).len() && #[trigger] reaches(
                merged_edges(built_edges(built_nodes(columns)), built_nodes(columns), false),
                start,
                end,
            ) && built_nodes(columns)[start].node.content()
                == built_nodes(columns)[path[0]].node.content(),
    decreases path.len(),
{
    let built = built_nodes(columns);
    let edges = built_edges(built);
    let merged = merged_edges(edges, built, true);
    let plain = merged_edges(edges, built, false);
    if path.len() == 1 {
        let trivial = seq![end];
        assert(is_path(plain, trivial));
        assert(trivial[0] == end && trivial.last() == end);
        assert(reaches(plain, end, end));
    } else {
        let shorter = path.drop_last();
        let z = shorter.last();
        let y = path.last();
        assert(path[path.len() - 2] == z);
        assert(merged.contains((path[path.len() - 2], path[path.len() - 2 + 1])));
        let w = lemma_merged_member(edges, built, true, (z, y));
        let a = edges[w].0;
        let b = edges[w].1;
        assert(edges.contains((a, b)));
        lemma_built_edge_ends(columns, a, b);
        lemma_representative(built, true, a);
        lemma_representative(built, true, b);
        lemma_edges_of_duplicates(columns, a, b, end);
        let source = choose|source: int|
            0 <= source < built.len() && #[trigger] edges.contains((source, end))
                && built[source].node.content() == built[a].node.content();
        assert(is_path(merged, shorter)) by {
            assert forall|i: int| 0 <= i < shorter.len() - 1 implies merged.contains(
                (#[trigger] shorter[i], shorter[i + 1]),
            ) by {
                assert(shorter[i] == path[i] && shorter[i + 1] == path[i + 1]);
            }
        }
        assert(shorter[0] == path[0]);
        lemma_path_before_merging(columns, shorter, source);
        let start = choose|start: int|
            0 <= start < built.len() && #[trigger] reaches(plain, start, source)
                && built[start].node.content() == built[shorter[0]].node.content();
        let upstream = choose|p: Seq<int>|
            is_path(plain, p) && p[0] == start && #[trigger] p.last() == source;
        let extended = upstream.push(end);
        lemma_merged_has(edges, built, false, source, end);
        assert(plain.contains((source, end)));
        assert(is_path(plain, extended)) by {
            assert forall|i: int| 0 <= i < extended.len() - 1 implies plain.contains(
                (#[trigger] extended[i], extended[i + 1]),
            ) by {
                if i < upstream.len() - 1 {
                    assert(extended[i] == upstream[i] && extended[i + 1] == upstream[i + 1]);
                } else {
                    assert(extended[i] == source && extended[i + 1] == end);
                }
            }
        }
        assert(extended[0] == start && extended.last() == end);
        assert(reaches(plain, start, end));
    }
}

/// A path between the nodes as they were built is a path between the nodes
/// that stand for them once duplicates are merged.
pub proof fn lemma_path_after_merging(columns: Seq<ColumnView>, path: Seq<int>)
    requires
        is_path(merged_edges(built_edges(built_nodes(columns)), built_nodes(columns), false), path),
    ensures
        is_path(
            merged_edges(built_edges(built_nodes(columns)), built_nodes(columns), true),
            Seq::new(path.len(), |i: int| representative(built_nodes(columns), true, path[i])),
        ),
{
    let built = built_nodes(columns);
    let edges = built_edges(built);
    let merged = merged_edges(edges, built, true);
    let plain = merged_edges(edges, built, false);
    let mapped = Seq::new(path.len(), |i: int| representative(built, true, path[i]));
    assert forall|i: int| 0 <= i < mapped.len() - 1 implies merged.contains(
        (#[trigger] mapped[i], mapped[i + 1]),
    ) by {
        assert(plain.contains((path[i], path[i + 1])));
        let w = lemma_merged_member(edges, built, false, (path[i], path[i + 1]));
        assert(edges[w] == (path[i], path[i + 1]));
        assert(edges.contains((path[i], path[i + 1])));
        lemma_merged_has(edges, built, true, path[i], path[i + 1]);
    }
}

/// A circle among the nodes as they were built, a path of at least one edge
/// from a node back to itself, is a cycle of the graph, whether duplicates
/// are merged or not.
pub proof fn lemma_circle_is_cycle(columns: Seq<ColumnView>, optimize: bool, path: Seq<int>)
    requires
        plan_of(columns, optimize) is Ok,
        is_path(built_edges(built_nodes(columns)), path),
        path.len() >= 2,
        path[0] == path.last(),
    ensures
        has_cycle(plan_of(columns, optimize)->Ok_0.edges),
{
    let built = built_nodes(columns);
    let edges = built_edges(built);
    let merged = merged_edges(edges, built, optimize);
    let mapped = Seq::new(path.len(), |i: int| representative(built, optimize, path[i]));
    assert forall|i: int| 0 <= i < mapped.len() - 1 implies merged.contains(
        (#[trigger] mapped[i], mapped[i + 1]),
    ) by {
        assert(edges.contains((path[i], path[i + 1])));
        lemma_merged_has(edges, built, optimize, path[i], path[i + 1]);
    }
    assert(is_path(merged, mapped));
    assert(mapped[0] == mapped.last());
    assert(on_cycle(merged, mapped[0]));
}

/// A chain of processed keys that leads back to where it began: each key is
/// matched with the lookup column that the next key belongs to, the last key
/// with the lookup column of the first. One key that is matched with its own
/// lookup column is such a chain.
pub open spec fn is_key_chain(built: Seq<BuiltNode>, keys: Seq<int>) -> bool {
    &&& keys.len() >= 1
    &&& forall|i: int|
        0 <= i < keys.len() ==> 0 <= #[trigger] keys[i] < built.len() && built[keys[i]].node
            is ProcessedKey && built[keys[i]].feeds is Some
    &&& forall|i: int|
        0 <= i < keys.len() - 1 ==> target_of(built, #[trigger] keys[i]) == built[keys[i
            + 1]].feeds
    &&& target_of(built, keys.last()) == built[keys[0]].feeds
}

/// The way round a chain of processed keys: from the lookup column of the
/// first key to the last key and its lookup column, and so on back to the
/// first key and its lookup column.
pub open spec fn chain_path(built: Seq<BuiltNode>, keys: Seq<int>) -> Seq<int> {
    Seq::new(
        (2 * keys.len() + 1) as nat,
        |j: int|
            if j % 2 == 1 {
                keys[keys.len() - 1 - j / 2]
            } else if j == 0 {
                built[keys[0]].feeds->0
            } else {
                built[keys[keys.len() - j / 2]].feeds->0
            },
    )
}

/// Processed keys that lead back to the lookup column they began at give a
/// cycle, whether duplicates are merged or not: no graph is made of such
/// columns, and the error names a column on a cycle.
pub proof fn lemma_key_chain_is_cycle(columns: Seq<ColumnView>, optimize: bool, keys: Seq<int>)
    requires
        plan_of(columns, optimize) is Ok,
        is_key_chain(built_nodes(columns), keys),
    ensures
        has_cycle(plan_of(columns, optimize)->Ok_0.edges),
{
    let built = built_nodes(columns);
    let edges = built_edges(built);
    let feed = feed_edges(built, built.len() as int);
    let processed = processed_edges(built, built.len() as int);
    let n = keys.len() as int;
    let path = chain_path(built, keys);
    assert forall|i: int| 0 <= i < path.len() - 1 implies edges.contains(
        (#[trigger] path[i], path[i + 1]),
    ) by {
        let m = i / 2;
        if i % 2 == 0 {
            let k = keys[n - 1 - m];
            assert((i + 1) % 2 == 1 && (i + 1) / 2 == m);
            assert(path[i + 1] == k);
            assert(target_of(built, k) == Some(path[i])) by {
                if m == 0 {
                    assert(keys.last() == k);
                } else {
                    assert(target_of(built, keys[n - 1 - m]) == built[keys[n - 1 - m + 1]].feeds);
                }
            }
            lemma_processed_edge_exists(built, built.len() as int, k);
            let w = processed.index_of((path[i], k));
            assert(edges[feed.len() + w] == processed[w]);
        } else {
            let k = keys[n - 1 - m];
            assert((i + 1) % 2 == 0 && (i + 1) / 2 == m + 1);
            assert(path[i] == k);
            assert(path[i + 1] == built[k].feeds->0);
            lemma_feed_edge_exists(built, built.len() as int, k);
            let w = feed.index_of((k, path[i + 1]));
            assert(edges[w] == feed[w]);
        }
    }
    assert(path.last() == built[keys[0]].feeds->0) by {
        assert((2 * n) % 2 == 0 && (2 * n) / 2 == n);
    }
    lemma_circle_is_cycle(columns, optimize, path);
}

/// Merging duplicates does not change what a node depends on: for a node
/// that stays, the nodes from which a path leads to it are, by their content,
/// the same with and without the optimization.
pub proof fn lemma_duplicate_optimization_neutral(columns: Seq<ColumnView>, node: int)
    requires
        plan_of(columns, true) is Ok,
        0 <= node < built_nodes(columns).len(),
        representative(built_nodes(columns), true, node) == node,
    ensures
        plan_of(columns, false) is Ok,
        reachable_contents(built_nodes(columns), plan_of(columns, true)->Ok_0.edges, node)
            == reachable_contents(built_nodes(columns), plan_of(columns, false)->Ok_0.edges, node),
{
    let built = built_nodes(columns);
    let edges = built_edges(built);
    let merged = merged_edges(edges, built, true);
    let plain = merged_edges(edges, built, false);
    let with = reachable_contents(built, merged, node);
    let without = reachable_contents(built, plain, node);
    assert forall|c: NodeView| with.contains(c) implies without.contains(c) by {
        let s = choose|s: int|
            0 <= s < built.len() && reaches(merged, s, node) && #[trigger] built[s].node.content()
                == c;
        let path = choose|path: Seq<int>|
            is_path(merged, path) && path[0] == s && #[trigger] path.last() == node;
        lemma_path_before_merging(columns, path, node);
        let start = choose|start: int|
            0 <= start < built.len() && #[trigger] reaches(plain, start, node)
                && built[start].node.content() == built[path[0]].node.content();
        assert(built[start].node.content() == c);
    }
    assert forall|c: NodeView| without.contains(c) implies with.contains(c) by {
        let s = choose|s: int|
            0 <= s < built.len() && reaches(plain, s, node) && #[trigger] built[s].node.content()
                == c;
        let path = choose|path: Seq<int>|
            is_path(plain, path) && path[0] == s && #[trigger] path.last() == node;
        lemma_path_after_merging(columns, path);
        let mapped = Seq::new(path.len(), |i: int| representative(built, true, path[i]));
        lemma_representative(built, true, s);
        assert(mapped[0] == representative(built, true, s));
        assert(mapped.last() == node);
        assert(reaches(merged, representative(built, true, s), node));
        assert(built[representative(built, true, s)].node.content() == c);
    }
    assert(with =~= without);
}

} // verus!
