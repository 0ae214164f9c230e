use crate::column_graph::{ColumnNode, NodeView};
use crate::identifier::{ColumnIdentifier, ColumnName};
use crate::table_mapper::{
    column_views, key_views, Column, ColumnView, FieldColumn, LookupKeyColumn, LookupKeyView,
    ParserColumn, ParserColumnView, ParserKeyView, TableMapperColumn,
};
use vstd::prelude::*;

verus! {

/// A node as the mapper's columns give rise to it, before duplicates are
/// merged. `synthetic` marks the parser node that is added for a parser key;
/// `feeds` is the node that this node was added for: the lookup of a key, the
/// parser key of a synthetic parser.
pub struct BuiltNode {
    pub node: NodeView,
    pub synthetic: bool,
    pub feeds: Option<int>,
}

/// The parser node that supplies the field of a parser key.
pub open spec fn synthetic_parser(k: ParserKeyView) -> NodeView {
    NodeView::Parser {
        column: ParserColumnView { column: k.key, map: false, field: k.field },
        map: false,
    }
}

/// The nodes of the keys of the lookup at index `lookup`, which follow it
/// directly: each key, and behind a parser key its synthetic parser.
pub open spec fn key_nodes(keys: Seq<LookupKeyView>, lookup: int) -> Seq<BuiltNode>
    decreases keys.len(),
{
    if keys.len() == 0 {
        Seq::empty()
    } else {
        let before = key_nodes(keys.drop_last(), lookup);
        match keys.last() {
            LookupKeyView::Parser(k) => before.push(
                BuiltNode { node: NodeView::ParserKey(k), synthetic: false, feeds: Some(lookup) },
            ).push(
                BuiltNode {
                    node: synthetic_parser(k),
                    synthetic: true,
                    feeds: Some(lookup + 1 + before.len()),
                },
            ),
            LookupKeyView::Processed(k) => before.push(
                BuiltNode { node: NodeView::ProcessedKey(k), synthetic: false, feeds: Some(lookup) },
            ),
        }
    }
}

/// The nodes of one column, the first of which gets the index `index`.
pub open spec fn column_nodes(column: ColumnView, index: int) -> Seq<BuiltNode> {
    match column {
        ColumnView::Static(c) => seq![
            BuiltNode { node: NodeView::Static { column: c, map: false }, synthetic: false, feeds: None },
        ],
        ColumnView::Parser(c) => seq![
            BuiltNode { node: NodeView::Parser { column: c, map: false }, synthetic: false, feeds: None },
        ],
        ColumnView::Lookup(c) => seq![
            BuiltNode { node: NodeView::Lookup { column: c, map: false }, synthetic: false, feeds: None },
        ] + key_nodes(c.keys, index),
    }
}

/// All nodes in the order of their indices: column by column, each lookup
/// followed by the nodes of its keys.
pub open spec fn built_nodes(columns: Seq<ColumnView>) -> Seq<BuiltNode>
    decreases columns.len(),
{
    if columns.len() == 0 {
        Seq::empty()
    } else {
        let before = built_nodes(columns.drop_last());
        before + column_nodes(columns.last(), before.len() as int)
    }
}

/// Whether node `j` can be what a processed key points at: a column of the
/// mapper of that name, not a synthetic parser.
pub open spec fn is_target(built: Seq<BuiltNode>, j: int, target: ColumnName) -> bool {
    built[j].node.is_column() && !built[j].synthetic && built[j].node.identifier() == target
}

/// The first node from `j` on that a processed key for `target` can point at.
pub open spec fn first_target(built: Seq<BuiltNode>, target: ColumnName, j: int) -> Option<int>
    decreases built.len() - j,
{
    if j >= built.len() {
        None
    } else if is_target(built, j, target) {
        Some(j)
    } else {
        first_target(built, target, j + 1)
    }
}

/// The node whose value the processed key at `k` is matched with.
pub open spec fn target_of(built: Seq<BuiltNode>, k: int) -> Option<int> {
    first_target(built, built[k].node->ProcessedKey_0.target, 0)
}

/// The first processed key from `k` on that points at no column.
pub open spec fn first_unresolved(built: Seq<BuiltNode>, k: int) -> Option<int>
    decreases built.len() - k,
{
    if k >= built.len() {
        None
    } else if built[k].node is ProcessedKey && target_of(built, k) is None {
        Some(k)
    } else {
        first_unresolved(built, k + 1)
    }
}

/// The edges from each of the first `upto` nodes to the node it was added
/// for.
pub open spec fn feed_edges(built: Seq<BuiltNode>, upto: int) -> Seq<(int, int)>
    decreases upto,
{
    if upto <= 0 {
        Seq::empty()
    } else {
        let before = feed_edges(built, upto - 1);
        match built[upto - 1].feeds {
            Some(t) => before.push((upto - 1, t)),
            None => before,
        }
    }
}

/// The edges into the processed keys among the first `upto` nodes, each from
/// the column it is matched with.
pub open spec fn processed_edges(built: Seq<BuiltNode>, upto: int) -> Seq<(int, int)>
    decreases upto,
{
    if upto <= 0 {
        Seq::empty()
    } else {
        let before = processed_edges(built, upto - 1);
        if built[upto - 1].node is ProcessedKey && target_of(built, upto - 1) is Some {
            before.push((target_of(built, upto - 1)->0, upto - 1))
        } else {
            before
        }
    }
}

/// All edges before duplicates are merged, in the order in which they are
/// added.
pub open spec fn built_edges(built: Seq<BuiltNode>) -> Seq<(int, int)> {
    feed_edges(built, built.len() as int) + processed_edges(built, built.len() as int)
}

/// The first node from `j` on with the content of node `i`; `i` itself where
/// no earlier one has it.
pub open spec fn first_same(built: Seq<BuiltNode>, i: int, j: int) -> int
    decreases i - j,
{
    if j >= i {
        i
    } else if built[j].node.content() == built[i].node.content() {
        j
    } else {
        first_same(built, i, j + 1)
    }
}

/// The node that stands for node `i` once duplicates are merged: the first
/// with its content. Without the optimization every node stands for itself.
pub open spec fn representative(built: Seq<BuiltNode>, optimize: bool, i: int) -> int {
    if optimize {
        first_same(built, i, 0)
    } else {
        i
    }
}

/// Whether one of the duplicates of node `i` among the first `upto` nodes,
/// `i` itself aside, is written to the target.
pub open spec fn merged_map(built: Seq<BuiltNode>, optimize: bool, i: int, upto: int) -> bool
    decreases upto,
{
    if upto <= 0 {
        false
    } else {
        merged_map(built, optimize, i, upto - 1) || (upto - 1 != i && representative(
            built,
            optimize,
            upto - 1,
        ) == i && built[upto - 1].node.map())
    }
}

/// The edges between representatives, in the order in which the edges were
/// added, none twice.
pub open spec fn merged_edges(edges: Seq<(int, int)>, built: Seq<BuiltNode>, optimize: bool) -> Seq<
    (int, int),
>
    decreases edges.len(),
{
    if edges.len() == 0 {
        Seq::empty()
    } else {
        let before = merged_edges(edges.drop_last(), built, optimize);
        let e = (
            representative(built, optimize, edges.last().0),
            representative(built, optimize, edges.last().1),
        );
        if before.contains(e) {
            before
        } else {
            before.push(e)
        }
    }
}

/// Nodes and edges of a column graph. A node that was merged into an earlier
/// one leaves its index empty.
pub struct GraphPlan {
    pub nodes: Seq<Option<NodeView>>,
    pub edges: Seq<(int, int)>,
}

/// The node at index `i` once duplicates are merged.
pub open spec fn planned_node(built: Seq<BuiltNode>, optimize: bool, i: int) -> Option<NodeView> {
    if representative(built, optimize, i) == i {
        Some(built[i].node.with_map(merged_map(built, optimize, i, built.len() as int)))
    } else {
        None
    }
}

/// The graph that the columns of a mapper give rise to, or the key column of
/// the first processed key that points at no column of the mapper.
pub open spec fn plan_of(columns: Seq<ColumnView>, optimize: bool) -> Result<GraphPlan, ColumnName> {
    let built = built_nodes(columns);
    match first_unresolved(built, 0) {
        Some(k) => Err(built[k].node.identifier()),
        None => Ok(
            GraphPlan {
                nodes: Seq::new(built.len(), |i: int| planned_node(built, optimize, i)),
                edges: merged_edges(built_edges(built), built, optimize),
            },
        ),
    }
}

pub struct BuiltEntry {
    pub node: ColumnNode,
    pub synthetic: bool,
    pub feeds: Option<usize>,
}

impl View for BuiltEntry {
    type V = BuiltNode;

    open spec fn view(&self) -> BuiltNode {
        BuiltNode {
            node: self.node@,
            synthetic: self.synthetic,
            feeds: match self.feeds {
                Some(t) => Some(t as int),
                None => None,
            },
        }
    }
}

/// The views of a list of entries.
pub open spec fn entry_views(entries: Seq<BuiltEntry>) -> Seq<BuiltNode> {
    Seq::new(entries.len(), |i: int| entries[i]@)
}

pub proof fn lemma_entry_views_push(entries: Seq<BuiltEntry>, e: BuiltEntry)
    ensures
        entry_views(entries.push(e)) == entry_views(entries).push(e@),
{
    assert(entry_views(entries.push(e)) =~= entry_views(entries).push(e@));
}

/// Every node feeds one of the nodes before it: its lookup, or its parser key.
pub open spec fn feeds_backwards(built: Seq<BuiltNode>) -> bool {
    forall|i: int|
        0 <= i < built.len() ==> ((#[trigger] built[i]).feeds matches Some(t) ==> 0 <= t < i)
}

/// Adds the nodes of the keys of a lookup that was just added.
fn push_key_nodes(entries: &mut Vec<BuiltEntry>, keys: &Vec<LookupKeyColumn>)
    requires
        old(entries)@.len() >= 1,
        feeds_backwards(entry_views(old(entries)@)),
    ensures
        entry_views(final(entries)@) == entry_views(old(entries)@) + key_nodes(
            key_views(keys@),
            old(entries)@.len() - 1,
        ),
        feeds_backwards(entry_views(final(entries)@)),
{
    let lookup = entries.len() - 1;
    let ghost start = entry_views(entries@);
    let ghost views = key_views(keys@);
    let mut j: usize = 0;
    assert(start + key_nodes(views.take(0), lookup as int) =~= start);
    while j < keys.len()
        invariant
            j <= keys.len(),
            views == key_views(keys@),
            lookup + 1 == start.len(),
            entry_views(entries@) == start + key_nodes(views.take(j as int), lookup as int),
            feeds_backwards(entry_views(entries@)),
        decreases keys.len() - j,
    {
        let ghost before = key_nodes(views.take(j as int), lookup as int);
        proof {
            assert(views.take(j + 1).drop_last() == views.take(j as int));
            assert(views.take(j + 1).last() == keys@[j as int]@);
            assert(entry_views(entries@).len() == entries@.len());
            assert((start + before).len() == start.len() + before.len());
            assert(entries@.len() == start.len() + before.len());
        }
        match &keys[j] {
            LookupKeyColumn::ParserKeyColumn(k) => {
                let key_index = entries.len();
                let first = BuiltEntry {
                    node: ColumnNode::LookupColumnParserKeyColumn(k.duplicate()),
                    synthetic: false,
                    feeds: Some(lookup),
                };
                let second = BuiltEntry {
                    node: ColumnNode::ParserColumn {
                        column: ParserColumn::new(k.identifier(), false, k.field_name()),
                        map_column: false,
                    },
                    synthetic: true,
                    feeds: Some(key_index),
                };
                proof {
                    lemma_entry_views_push(entries@, first);
                    lemma_entry_views_push(entries@.push(first), second);
                    assert(start + before.push(first@).push(second@) =~= (start + before).push(
                        first@,
                    ).push(second@));
                }
                entries.push(first);
                entries.push(second);
            },
            LookupKeyColumn::ProcessedKeyColumn(k) => {
                let first = BuiltEntry {
                    node: ColumnNode::LookupColumnProcessedKeyColumn(k.duplicate()),
                    synthetic: false,
                    feeds: Some(lookup),
                };
                proof {
                    lemma_entry_views_push(entries@, first);
                    assert(start + before.push(first@) =~= (start + before).push(first@));
                }
                entries.push(first);
            },
        }
        j += 1;
    }
    assert(views.take(keys@.len() as int) == views);
}

/// The nodes that the columns give rise to, in the order of their indices.
pub(crate) fn build_entries(columns: &Vec<TableMapperColumn>) -> (entries: Vec<BuiltEntry>)
    ensures
        entry_views(entries@) == built_nodes(column_views(columns@)),
        feeds_backwards(entry_views(entries@)),
{
    let mut entries: Vec<BuiltEntry> = Vec::new();
    let ghost views = column_views(columns@);
    let mut i: usize = 0;
    assert(entry_views(entries@) =~= built_nodes(views.take(0)));
    while i < columns.len()
        invariant
            i <= columns.len(),
            views == column_views(columns@),
            entry_views(entries@) == built_nodes(views.take(i as int)),
            feeds_backwards(entry_views(entries@)),
        decreases columns.len() - i,
    {
        let ghost before = entry_views(entries@);
        proof {
            assert(views.take(i + 1).drop_last() == views.take(i as int));
            assert(views.take(i + 1).last() == columns@[i as int]@);
        }
        match &columns[i] {
            TableMapperColumn::Static(c) => {
                let entry = BuiltEntry {
                    node: ColumnNode::StaticColumn { column: c.duplicate(), map_column: false },
                    synthetic: false,
                    feeds: None,
                };
                proof {
                    lemma_entry_views_push(entries@, entry);
                    assert(before.push(entry@) =~= before + seq![entry@]);
                }
                entries.push(entry);
            },
            TableMapperColumn::Parser(c) => {
                let entry = BuiltEntry {
                    node: ColumnNode::ParserColumn { column: c.duplicate(), map_column: false },
                    synthetic: false,
                    feeds: None,
                };
                proof {
                    lemma_entry_views_push(entries@, entry);
                    assert(before.push(entry@) =~= before + seq![entry@]);
                }
                entries.push(entry);
            },
            TableMapperColumn::Lookup(c) => {
                let entry = BuiltEntry {
                    node: ColumnNode::LookupColumn { column: c.duplicate(), map_column: false },
                    synthetic: false,
                    feeds: None,
                };
                proof {
                    lemma_entry_views_push(entries@, entry);
                }
                entries.push(entry);
                push_key_nodes(&mut entries, c.iter_key_columns());
                proof {
                    let keys = key_nodes(c@.keys, before.len() as int);
                    assert(before.push(entry@) + keys =~= before + (seq![entry@] + keys));
                }
            },
        }
        i += 1;
    }
    assert(views.take(columns@.len() as int) == views);
    entries
}

/// Pairs of indices as pairs of integers.
pub open spec fn edge_views(edges: Seq<(usize, usize)>) -> Seq<(int, int)> {
    Seq::new(edges.len(), |i: int| (edges[i].0 as int, edges[i].1 as int))
}

pub proof fn lemma_edge_views_push(edges: Seq<(usize, usize)>, e: (usize, usize))
    ensures
        edge_views(edges.push(e)) == edge_views(edges).push((e.0 as int, e.1 as int)),
{
    assert(edge_views(edges.push(e)) =~= edge_views(edges).push((e.0 as int, e.1 as int)));
}

/// Both ends of every edge lie below `n`.
pub open spec fn edges_within(edges: Seq<(int, int)>, n: int) -> bool {
    forall|i: int|
        0 <= i < edges.len() ==> 0 <= (#[trigger] edges[i]).0 < n && 0 <= edges[i].1 < n
}

/// What `first_same` finds: a node from `j` to `i` with the content of `i`,
/// before which, from `j` on, no node has it.
pub proof fn lemma_first_same(built: Seq<BuiltNode>, i: int, j: int)
    requires
        0 <= j <= i,
    ensures
        j <= first_same(built, i, j) <= i,
        built[first_same(built, i, j)].node.content() == built[i].node.content(),
        forall|m: int| j <= m < first_same(built, i, j) ==> built[m].node.content() != built[i].node.content(),
    decreases i - j,
{
    if j < i && built[j].node.content() != built[i].node.content() {
        lemma_first_same(built, i, j + 1);
    }
}

/// A search that starts behind nodes of other content finds the same node.
pub proof fn lemma_first_same_skip(built: Seq<BuiltNode>, i: int, j: int)
    requires
        0 <= j <= i,
        forall|m: int| 0 <= m < j ==> built[m].node.content() != built[i].node.content(),
    ensures
        first_same(built, i, 0) == first_same(built, i, j),
    decreases j,
{
    if j > 0 {
        lemma_first_same_skip(built, i, j - 1);
        assert(built[j - 1].node.content() != built[i].node.content());
    }
}

/// A representative stands for itself, has the content of what it stands
/// for, and does not come later.
pub proof fn lemma_representative(built: Seq<BuiltNode>, optimize: bool, i: int)
    requires
        0 <= i < built.len(),
    ensures
        0 <= representative(built, optimize, i) <= i,
        built[representative(built, optimize, i)].node.content() == built[i].node.content(),
        representative(built, optimize, representative(built, optimize, i)) == representative(
            built,
            optimize,
            i,
        ),
{
    if optimize {
        lemma_first_same(built, i, 0);
        let r = first_same(built, i, 0);
        lemma_first_same_skip(built, r, r);
    }
}

fn find_target(entries: &Vec<BuiltEntry>, target: &ColumnIdentifier) -> (r: Option<usize>)
    ensures
        match first_target(entry_views(entries@), target@, 0) {
            Some(j) => r == Some(j as usize) && 0 <= j < entries@.len(),
            None => r is None,
        },
{
    let ghost built = entry_views(entries@);
    let mut j: usize = 0;
    while j < entries.len()
        invariant
            j <= entries.len(),
            built == entry_views(entries@),
            first_target(built, target@, 0) == first_target(built, target@, j as int),
        decreases entries.len() - j,
    {
        let entry = &entries[j];
        assert(built[j as int] == entry@);
        if entry.node.is_column() && !entry.synthetic && *Column::identifier(&entry.node)
            == *target {
            return Some(j);
        }
        j += 1;
    }
    None
}

/// The edges into the processed keys, or the index of the first processed
/// key that points at no column.
pub(crate) fn resolve_processed_keys(entries: &Vec<BuiltEntry>) -> (r: Result<Vec<(usize, usize)>, usize>)
    ensures
        match first_unresolved(entry_views(entries@), 0) {
            Some(k) => r == Err::<Vec<(usize, usize)>, usize>(k as usize) && 0 <= k
                < entries@.len(),
            None => r matches Ok(v) && edge_views(v@) == processed_edges(
                entry_views(entries@),
                entries@.len() as int,
            ) && edges_within(edge_views(v@), entries@.len() as int),
        },
{
    let ghost built = entry_views(entries@);
    let mut out: Vec<(usize, usize)> = Vec::new();
    let mut k: usize = 0;
    assert(edge_views(out@) =~= processed_edges(built, 0));
    while k < entries.len()
        invariant
            k <= entries.len(),
            built == entry_views(entries@),
            first_unresolved(built, 0) == first_unresolved(built, k as int),
            edge_views(out@) == processed_edges(built, k as int),
            edges_within(edge_views(out@), entries@.len() as int),
        decreases entries.len() - k,
    {
        assert(built[k as int] == entries@[k as int]@);
        match &entries[k].node {
            ColumnNode::LookupColumnProcessedKeyColumn(key) => {
                match find_target(entries, key.column_identifier()) {
                    Some(t) => {
                        proof {
                            lemma_edge_views_push(out@, (t, k));
                        }
                        out.push((t, k));
                    },
                    None => {
                        return Err(k);
                    },
                }
            },
            _ => {},
        }
        k += 1;
    }
    Ok(out)
}

/// The edges from each node to the node it was added for.
pub(crate) fn feed_edge_list(entries: &Vec<BuiltEntry>) -> (out: Vec<(usize, usize)>)
    requires
        feeds_backwards(entry_views(entries@)),
    ensures
        edge_views(out@) == feed_edges(entry_views(entries@), entries@.len() as int),
        edges_within(edge_views(out@), entries@.len() as int),
{
    let ghost built = entry_views(entries@);
    let mut out: Vec<(usize, usize)> = Vec::new();
    let mut k: usize = 0;
    assert(edge_views(out@) =~= feed_edges(built, 0));
    while k < entries.len()
        invariant
            k <= entries.len(),
            built == entry_views(entries@),
            feeds_backwards(built),
            edge_views(out@) == feed_edges(built, k as int),
            edges_within(edge_views(out@), entries@.len() as int),
        decreases entries.len() - k,
    {
        assert(built[k as int] == entries@[k as int]@);
        match entries[k].feeds {
            Some(t) => {
                proof {
                    lemma_edge_views_push(out@, (k, t));
                }
                out.push((k, t));
            },
            None => {},
        }
        k += 1;
    }
    out
}

/// For each node the node that stands for it.
pub(crate) fn representatives(entries: &Vec<BuiltEntry>, optimize: bool) -> (reps: Vec<usize>)
    ensures
        reps@.len() == entries@.len(),
        forall|i: int|
            0 <= i < reps@.len() ==> #[trigger] reps@[i] == representative(
                entry_views(entries@),
                optimize,
                i,
            ),
{
    let ghost built = entry_views(entries@);
    let mut reps: Vec<usize> = Vec::new();
    let mut i: usize = 0;
    while i < entries.len()
        invariant
            i <= entries.len(),
            built == entry_views(entries@),
            reps@.len() == i,
            forall|m: int|
                0 <= m < i ==> #[trigger] reps@[m] == representative(built, optimize, m),
        decreases entries.len() - i,
    {
        let mut found: usize = i;
        if optimize {
            let mut j: usize = 0;
            while j < i
                invariant_except_break
                    j <= i,
                    found == i,
                    first_same(built, i as int, 0) == first_same(built, i as int, j as int),
                invariant
                    i < entries.len(),
                    built == entry_views(entries@),
                ensures
                    found == first_same(built, i as int, 0),
                decreases i - j,
            {
                assert(built[j as int] == entries@[j as int]@);
                assert(built[i as int] == entries@[i as int]@);
                if entries[j].node.same_content(&entries[i].node) {
                    found = j;
                    break ;
                }
                j += 1;
            }
            assert(found == first_same(built, i as int, 0));
        }
        reps.push(found);
        i += 1;
    }
    reps
}

/// For each node whether one of its duplicates is written to the target.
pub(crate) fn merged_flags(entries: &Vec<BuiltEntry>, reps: &Vec<usize>, optimize: bool) -> (flags: Vec<
    bool,
>)
    requires
        reps@.len() == entries@.len(),
        forall|i: int|
            0 <= i < reps@.len() ==> #[trigger] reps@[i] == representative(
                entry_views(entries@),
                optimize,
                i,
            ),
    ensures
        flags@.len() == entries@.len(),
        forall|i: int|
            0 <= i < flags@.len() ==> #[trigger] flags@[i] == merged_map(
                entry_views(entries@),
                optimize,
                i,
                entries@.len() as int,
            ),
{
    let ghost built = entry_views(entries@);
    let n = entries.len();
    let mut flags: Vec<bool> = Vec::new();
    let mut i: usize = 0;
    while i < n
        invariant
            i <= n,
            flags@.len() == i,
            forall|m: int| 0 <= m < i ==> #[trigger] flags@[m] == false,
        decreases n - i,
    {
        flags.push(false);
        i += 1;
    }
    let mut m: usize = 0;
    while m < n
        invariant
            m <= n,
            n == entries@.len(),
            reps@.len() == n,
            flags@.len() == n,
            built == entry_views(entries@),
            forall|i: int|
                0 <= i < reps@.len() ==> #[trigger] reps@[i] == representative(built, optimize, i),
            forall|i: int|
                0 <= i < n ==> #[trigger] flags@[i] == merged_map(built, optimize, i, m as int),
        decreases n - m,
    {
        assert(built[m as int] == entries@[m as int]@);
        proof {
            lemma_representative(built, optimize, m as int);
        }
        let r = reps[m];
        if r != m && Column::map(&entries[m].node) {
            flags.set(r, true);
        }
        m += 1;
    }
    flags
}

} // verus!
