use crate::graph_layers::{
    build_topology, collect_groups, compute_levels, group_views, is_eager_grouping,
    lemma_groups_eager, lemma_merged_edges_between_nodes, planned_slots,
};
use crate::graph_plan::{
    build_entries, built_edges, edge_views, edges_within, entry_views, feed_edge_list,
    lemma_edge_views_push, lemma_representative, merged_flags, plan_of, planned_node,
    representative, representatives, resolve_processed_keys, GraphPlan,
};
use crate::identifier::{
    bracketed, is_normalized_part, unescaped, ColumnIdentifier, ColumnName, Identifier,
    ParseIdentifierError, TableIdentifier,
};
use crate::import_options::ImportOptions;
use crate::metadata::{
    find_metadata, metadata_for, table_views, ColumnMetadata, ColumnMetadataView, TableMetadata,
    TableMetadataView,
};
use crate::table_mapper::TableMapper;
use crate::text::{
    decimal_text, is_digit, lemma_decimal_text_digits, lemma_decimal_text_injective,
    push_char, push_decimal,
};
use crate::topology::{
    as_ints, edges_between_nodes, graph_edges, graph_incoming, graph_slots, graph_tidy,
    graph_toposort,
    incoming_sources, is_node, lemma_edge_ends, lemma_incoming_sources, lemma_ordered_acyclic,
    on_cycle,
};
use petgraph::stable_graph::StableGraph;
use petgraph::Directed;
use crate::table_mapper::{
    Column, LookupColumn, LookupColumnView, ParserColumn, ParserColumnView, ParserKeyColumn,
    ParserKeyView, ProcessedKeyColumn, ProcessedKeyView, StaticColumn, StaticColumnView,
};
use vstd::prelude::*;

verus! {

/// A node of the column graph. Of the three kinds of mapper column the node
/// keeps, beside the column, whether a duplicate that was merged into it is
/// written to the target.
#[derive(Debug)]
#[allow(inconsistent_fields)]
pub enum ColumnNode {
    StaticColumn { column: StaticColumn, map_column: bool },
    ParserColumn { column: ParserColumn, map_column: bool },
    LookupColumn { column: LookupColumn, map_column: bool },
    LookupColumnParserKeyColumn(ParserKeyColumn),
    LookupColumnProcessedKeyColumn(ProcessedKeyColumn),
}

#[allow(inconsistent_fields)]
pub enum NodeView {
    Static { column: StaticColumnView, map: bool },
    Parser { column: ParserColumnView, map: bool },
    Lookup { column: LookupColumnView, map: bool },
    ParserKey(ParserKeyView),
    ProcessedKey(ProcessedKeyView),
}

impl NodeView {
    /// The column that the node stands for: the target column of a mapper
    /// column, the key column of a lookup key.
    pub open spec fn identifier(self) -> ColumnName {
        match self {
            NodeView::Static { column, .. } => column.column,
            NodeView::Parser { column, .. } => column.column,
            NodeView::Lookup { column, .. } => column.column,
            NodeView::ParserKey(k) => k.key,
            NodeView::ProcessedKey(k) => k.key,
        }
    }

    /// Whether the node is written to the target: its column asks for it, or
    /// a duplicate that was merged into it did.
    pub open spec fn map(self) -> bool {
        match self {
            NodeView::Static { column, map } => map || column.map,
            NodeView::Parser { column, map } => map || column.map,
            NodeView::Lookup { column, map } => map || column.map,
            NodeView::ParserKey(_) => false,
            NodeView::ProcessedKey(_) => false,
        }
    }

    /// Whether the node only serves other nodes: a static value or a lookup
    /// key.
    pub open spec fn is_transient(self) -> bool {
        match self {
            NodeView::Static { .. } => true,
            NodeView::Parser { .. } => false,
            NodeView::Lookup { .. } => false,
            NodeView::ParserKey(_) => true,
            NodeView::ProcessedKey(_) => true,
        }
    }

    /// Whether the node is a column of the mapper rather than a lookup key.
    pub open spec fn is_column(self) -> bool {
        self is Static || self is Parser || self is Lookup
    }

    /// The node without regard to whether it is written to the target: what
    /// duplicates have in common.
    pub open spec fn content(self) -> NodeView {
        match self {
            NodeView::Static { column, .. } => NodeView::Static {
                column: column.content(),
                map: false,
            },
            NodeView::Parser { column, .. } => NodeView::Parser {
                column: column.content(),
                map: false,
            },
            NodeView::Lookup { column, .. } => NodeView::Lookup {
                column: column.content(),
                map: false,
            },
            NodeView::ParserKey(k) => NodeView::ParserKey(k),
            NodeView::ProcessedKey(k) => NodeView::ProcessedKey(k),
        }
    }

    /// The node with the flag of its merged duplicates set to `flag`.
    pub open spec fn with_map(self, flag: bool) -> NodeView {
        match self {
            NodeView::Static { column, .. } => NodeView::Static { column, map: flag },
            NodeView::Parser { column, .. } => NodeView::Parser { column, map: flag },
            NodeView::Lookup { column, .. } => NodeView::Lookup { column, map: flag },
            NodeView::ParserKey(k) => NodeView::ParserKey(k),
            NodeView::ProcessedKey(k) => NodeView::ProcessedKey(k),
        }
    }
}

impl View for ColumnNode {
    type V = NodeView;

    open spec fn view(&self) -> NodeView {
        match self {
            ColumnNode::StaticColumn { column, map_column } => NodeView::Static {
                column: column@,
                map: *map_column,
            },
            ColumnNode::ParserColumn { column, map_column } => NodeView::Parser {
                column: column@,
                map: *map_column,
            },
            ColumnNode::LookupColumn { column, map_column } => NodeView::Lookup {
                column: column@,
                map: *map_column,
            },
            ColumnNode::LookupColumnParserKeyColumn(k) => NodeView::ParserKey(k@),
            ColumnNode::LookupColumnProcessedKeyColumn(k) => NodeView::ProcessedKey(k@),
        }
    }
}

impl ColumnNode {
    /// Whether the node is kept out of the target table.
    pub fn is_transient(&self) -> (r: bool)
        ensures
            r == self@.is_transient(),
    {
        match self {
            ColumnNode::StaticColumn { .. } => true,
            ColumnNode::ParserColumn { .. } => false,
            ColumnNode::LookupColumn { .. } => false,
            ColumnNode::LookupColumnParserKeyColumn(_) => true,
            ColumnNode::LookupColumnProcessedKeyColumn(_) => true,
        }
    }

    /// Whether the node is a column of the mapper rather than a lookup key.
    pub fn is_column(&self) -> (r: bool)
        ensures
            r == self@.is_column(),
    {
        match self {
            ColumnNode::StaticColumn { .. } => true,
            ColumnNode::ParserColumn { .. } => true,
            ColumnNode::LookupColumn { .. } => true,
            ColumnNode::LookupColumnParserKeyColumn(_) => false,
            ColumnNode::LookupColumnProcessedKeyColumn(_) => false,
        }
    }

    /// Whether two nodes are duplicates of one another.
    pub fn same_content(&self, other: &ColumnNode) -> (r: bool)
        ensures
            r == (self@.content() == other@.content()),
    {
        match (self, other) {
            (
                ColumnNode::StaticColumn { column: a, .. },
                ColumnNode::StaticColumn { column: b, .. },
            ) => a.same_content(b),
            (
                ColumnNode::ParserColumn { column: a, .. },
                ColumnNode::ParserColumn { column: b, .. },
            ) => a.same_content(b),
            (
                ColumnNode::LookupColumn { column: a, .. },
                ColumnNode::LookupColumn { column: b, .. },
            ) => a.same_content(b),
            (
                ColumnNode::LookupColumnParserKeyColumn(a),
                ColumnNode::LookupColumnParserKeyColumn(b),
            ) => a.same(b),
            (
                ColumnNode::LookupColumnProcessedKeyColumn(a),
                ColumnNode::LookupColumnProcessedKeyColumn(b),
            ) => a.same(b),
            _ => false,
        }
    }

    /// The node with the flag of its merged duplicates set to `flag`.
    pub fn with_map(self, flag: bool) -> (r: ColumnNode)
        ensures
            r@ == self@.with_map(flag),
    {
        match self {
            ColumnNode::StaticColumn { column, .. } => ColumnNode::StaticColumn {
                column,
                map_column: flag,
            },
            ColumnNode::ParserColumn { column, .. } => ColumnNode::ParserColumn {
                column,
                map_column: flag,
            },
            ColumnNode::LookupColumn { column, .. } => ColumnNode::LookupColumn {
                column,
                map_column: flag,
            },
            ColumnNode::LookupColumnParserKeyColumn(k) => ColumnNode::LookupColumnParserKeyColumn(
                k,
            ),
            ColumnNode::LookupColumnProcessedKeyColumn(k) => {
                ColumnNode::LookupColumnProcessedKeyColumn(k)
            },
        }
    }

    /// The node as it is shown: its kind and its column.
    pub fn display(&self) -> (r: String)
        ensures
            r@ == node_label(self@),
    {
        let kind = match self {
            ColumnNode::StaticColumn { .. } => "static column ",
            ColumnNode::ParserColumn { .. } => "parser column ",
            ColumnNode::LookupColumn { .. } => "lookup column ",
            ColumnNode::LookupColumnParserKeyColumn(_) => "parser key column ",
            ColumnNode::LookupColumnProcessedKeyColumn(_) => "processed key column ",
        };
        let mut out = kind.to_owned();
        let part = Column::identifier(self).display();
        out.append(part.as_str());
        out
    }
}

/// How a node is shown: its kind, then the last part of its column.
pub open spec fn node_label(node: NodeView) -> Seq<char> {
    (match node {
        NodeView::Static { .. } => "static column "@,
        NodeView::Parser { .. } => "parser column "@,
        NodeView::Lookup { .. } => "lookup column "@,
        NodeView::ParserKey(_) => "parser key column "@,
        NodeView::ProcessedKey(_) => "processed key column "@,
    }) + node.identifier().column
}

impl Column for ColumnNode {
    open spec fn column_view(&self) -> ColumnName {
        self@.identifier()
    }

    open spec fn map_view(&self) -> bool {
        self@.map()
    }

    fn identifier(&self) -> (r: &ColumnIdentifier) {
        match self {
            ColumnNode::StaticColumn { column, .. } => Column::identifier(column),
            ColumnNode::ParserColumn { column, .. } => Column::identifier(column),
            ColumnNode::LookupColumn { column, .. } => Column::identifier(column),
            ColumnNode::LookupColumnParserKeyColumn(k) => Column::identifier(k),
            ColumnNode::LookupColumnProcessedKeyColumn(k) => Column::identifier(k),
        }
    }

    fn map(&self) -> (r: bool) {
        match self {
            ColumnNode::StaticColumn { column, map_column } => *map_column || Column::map(column),
            ColumnNode::ParserColumn { column, map_column } => *map_column || Column::map(column),
            ColumnNode::LookupColumn { column, map_column } => *map_column || Column::map(column),
            ColumnNode::LookupColumnParserKeyColumn(_) => false,
            ColumnNode::LookupColumnProcessedKeyColumn(_) => false,
        }
    }
}

impl ColumnNode {
    /// A copy of the node.
    pub fn duplicate(&self) -> (r: ColumnNode)
        ensures
            r@ == self@,
    {
        match self {
            ColumnNode::StaticColumn { column, map_column } => ColumnNode::StaticColumn {
                column: column.duplicate(),
                map_column: *map_column,
            },
            ColumnNode::ParserColumn { column, map_column } => ColumnNode::ParserColumn {
                column: column.duplicate(),
                map_column: *map_column,
            },
            ColumnNode::LookupColumn { column, map_column } => ColumnNode::LookupColumn {
                column: column.duplicate(),
                map_column: *map_column,
            },
            ColumnNode::LookupColumnParserKeyColumn(k) => ColumnNode::LookupColumnParserKeyColumn(
                k.duplicate(),
            ),
            ColumnNode::LookupColumnProcessedKeyColumn(k) => {
                ColumnNode::LookupColumnProcessedKeyColumn(k.duplicate())
            },
        }
    }
}

/// The name of the staging column of a node: a column identifier that no
/// other node of the graph has.
#[derive(Debug)]
pub struct UniqueColumnIdentifier(ColumnIdentifier);

impl View for UniqueColumnIdentifier {
    type V = ColumnName;

    closed spec fn view(&self) -> ColumnName {
        self.0@
    }
}

/// The last part of the staging column of the node at `index`: the last part
/// of its column without the brackets, an underscore and the index, in
/// brackets.
pub open spec fn unique_part(column: ColumnName, index: int) -> Seq<char> {
    bracketed(unescaped(column.column) + seq!['_'] + decimal_text(index as nat))
}

/// The staging column of the node at `index`, in the table of its column.
pub open spec fn unique_name(column: ColumnName, index: int) -> ColumnName {
    ColumnName { schema: column.schema, table: column.table, column: unique_part(column, index) }
}

/// Nodes at different indices have different staging columns.
pub proof fn lemma_unique_names_differ(a: ColumnName, i: nat, b: ColumnName, j: nat)
    requires
        i != j,
        is_normalized_part(a.column),
        is_normalized_part(b.column),
    ensures
        unique_name(a, i as int) != unique_name(b, j as int),
{
    let x = unescaped(a.column) + seq!['_'] + decimal_text(i);
    let y = unescaped(b.column) + seq!['_'] + decimal_text(j);
    let di = decimal_text(i);
    let dj = decimal_text(j);
    lemma_decimal_text_digits(i);
    lemma_decimal_text_digits(j);
    if unique_part(a, i as int) == unique_part(b, j as int) {
        assert(x =~= bracketed(x).subrange(1, bracketed(x).len() - 1));
        assert(y =~= bracketed(y).subrange(1, bracketed(y).len() - 1));
        assert(x == y);
        if di.len() == dj.len() {
            assert(di =~= x.subrange(x.len() - di.len(), x.len() as int));
            assert(dj =~= y.subrange(y.len() - dj.len(), y.len() as int));
            lemma_decimal_text_injective(i, j);
        } else if di.len() < dj.len() {
            let k = x.len() - di.len() - 1;
            assert(x[k] == '_');
            assert(y[k] == dj[k - (y.len() - dj.len())]);
            assert(is_digit(dj[k - (y.len() - dj.len())]));
        } else {
            let k = y.len() - dj.len() - 1;
            assert(y[k] == '_');
            assert(x[k] == di[k - (x.len() - di.len())]);
            assert(is_digit(di[k - (x.len() - di.len())]));
        }
    }
}

impl UniqueColumnIdentifier {
    /// The staging column of the node at `index` that stands for `column`.
    pub fn new(column: &ColumnIdentifier, index: usize) -> (r: UniqueColumnIdentifier)
        ensures
            r@ == unique_name(column@, index as int),
    {
        column.well_formed();
        let mut name = "[".to_owned();
        name.append(column.part_unescaped());
        push_char(&mut name, '_');
        push_decimal(&mut name, index);
        push_char(&mut name, ']');
        proof {
            reveal_strlit("[");
            assert(name@ =~= unique_part(column@, index as int));
        }
        let table = TableIdentifier::from_column(column);
        match ColumnIdentifier::with_table(&table, name.as_str()) {
            Ok(c) => UniqueColumnIdentifier(c),
            Err(_) => {
                assert(false);
                vstd::pervasive::unreached()
            },
        }
    }

    /// Reads a column identifier as the name of a staging column.
    pub fn parse(identifier: &str) -> (r: Result<UniqueColumnIdentifier, ParseIdentifierError>)
        ensures
            match crate::identifier::parse_column(identifier@) {
                Ok(name) => r matches Ok(c) && c@ == name,
                Err(e) => r matches Err(x) && x == e,
            },
    {
        match ColumnIdentifier::parse(identifier) {
            Ok(c) => Ok(UniqueColumnIdentifier(c)),
            Err(e) => Err(e),
        }
    }

    pub fn duplicate(&self) -> (r: UniqueColumnIdentifier)
        ensures
            r@ == self@,
    {
        UniqueColumnIdentifier(self.0.clone())
    }
}

impl Identifier for UniqueColumnIdentifier {
    open spec fn part_text(&self) -> Seq<char> {
        self@.column
    }

    open spec fn full_text(&self) -> Seq<char> {
        self@.full()
    }

    fn part(&self) -> (r: &str) {
        self.0.part()
    }

    fn full(&self) -> (r: &str) {
        self.0.full()
    }

    fn part_unescaped(&self) -> (r: &str) {
        self.0.part_unescaped()
    }
}

/// Why no column graph could be made of a table mapper.
#[derive(Debug)]
pub enum CreateColumnGraphError {
    /// The processed key with this key column is matched with a column that
    /// the mapper does not have.
    ProcessedKeyColumnUnknownTargetColumn(ColumnIdentifier),
    /// The column lies on a cycle of the graph.
    ColumnCycle(ColumnIdentifier),
}

/// Which indices hold a node.
pub open spec fn present(nodes: Seq<Option<NodeView>>) -> Seq<bool> {
    Seq::new(nodes.len(), |i: int| nodes[i] is Some)
}

/// The staging column of each node.
pub open spec fn unique_names(nodes: Seq<Option<NodeView>>) -> Seq<Option<ColumnName>> {
    Seq::new(
        nodes.len(),
        |i: int|
            match nodes[i] {
                Some(n) => Some(unique_name(n.identifier(), i)),
                None => None,
            },
    )
}

/// What the server says of the column of each node.
pub open spec fn node_metadata(
    nodes: Seq<Option<NodeView>>,
    tables: Seq<TableMetadataView>,
) -> Seq<Option<ColumnMetadataView>> {
    Seq::new(
        nodes.len(),
        |i: int|
            match nodes[i] {
                Some(n) => Some(metadata_for(tables, n.identifier())),
                None => None,
            },
    )
}

/// Whether `column` is the column of a node that lies on a cycle.
pub open spec fn names_cycle(plan: GraphPlan, column: ColumnName) -> bool {
    exists|n: int|
        0 <= n < plan.nodes.len() && on_cycle(plan.edges, n) && (#[trigger] plan.nodes[n]) is Some
            && plan.nodes[n]->0.identifier() == column
}

/// Whether some node lies on a cycle.
pub open spec fn has_cycle(edges: Seq<(int, int)>) -> bool {
    exists|n: int| on_cycle(edges, n)
}

pub struct ColumnGraphView {
    /// The node at each index; none where a duplicate was merged away.
    pub nodes: Seq<Option<NodeView>>,
    /// The edges, in the order in which they were added.
    pub edges: Seq<(int, int)>,
    /// The indices of the nodes in eager layers.
    pub groups: Seq<Seq<int>>,
    pub unique_identifiers: Seq<Option<ColumnName>>,
    pub metadata: Seq<Option<ColumnMetadataView>>,
}

/// A node of the graph with its index and what belongs to it.
pub struct IndexedView {
    pub index: int,
    pub column: NodeView,
    pub unique_identifier: ColumnName,
    pub metadata: ColumnMetadataView,
}

impl ColumnGraphView {
    /// The node at `index` with what belongs to it.
    pub open spec fn indexed(self, index: int) -> IndexedView {
        IndexedView {
            index,
            column: self.nodes[index]->0,
            unique_identifier: self.unique_identifiers[index]->0,
            metadata: self.metadata[index]->0,
        }
    }

    /// The nodes at the indices `indices`.
    pub open spec fn indexed_all(self, indices: Seq<int>) -> Seq<IndexedView> {
        Seq::new(indices.len(), |k: int| self.indexed(indices[k]))
    }

    /// The indices below `upto` of the nodes that are written to the target,
    /// in ascending order.
    pub open spec fn mapped(self, upto: int) -> Seq<int>
        decreases upto,
    {
        if upto <= 0 {
            Seq::empty()
        } else {
            let before = self.mapped(upto - 1);
            if self.nodes[upto - 1] matches Some(n) && n.map() {
                before.push(upto - 1)
            } else {
                before
            }
        }
    }

    /// Each index holds a node together with its staging column and its
    /// metadata, or none of them; edges and groups speak of nodes.
    pub open spec fn wf(self) -> bool {
        &&& self.unique_identifiers.len() == self.nodes.len()
        &&& self.metadata.len() == self.nodes.len()
        &&& forall|i: int|
            0 <= i < self.nodes.len() ==> (#[trigger] self.nodes[i] is Some)
                == (self.unique_identifiers[i] is Some)
        &&& forall|i: int|
            0 <= i < self.nodes.len() ==> (#[trigger] self.nodes[i] is Some) == (self.metadata[i]
                is Some)
        &&& forall|i: int|
            0 <= i < self.nodes.len() ==> ((#[trigger] self.nodes[i]) matches Some(n)
                ==> n.identifier().wf())
        &&& self.unique_identifiers == unique_names(self.nodes)
        &&& edges_between_nodes(present(self.nodes), self.edges)
        &&& forall|l: int, i: int|
            0 <= l < self.groups.len() && 0 <= i < self.groups[l].len() ==> is_node(
                present(self.nodes),
                #[trigger] self.groups[l][i],
            )
    }
}

/// The views of the nodes of an arena.
pub open spec fn node_views(nodes: Seq<Option<ColumnNode>>) -> Seq<Option<NodeView>> {
    Seq::new(
        nodes.len(),
        |i: int|
            match nodes[i] {
                Some(n) => Some(n@),
                None => None,
            },
    )
}

/// The column graph of one table mapper.
#[derive(Debug)]
pub struct ColumnGraph {
    graph: StableGraph<(), (), Directed, usize>,
    nodes: Vec<Option<ColumnNode>>,
    groups: Vec<Vec<usize>>,
    unique_identifiers: Vec<Option<UniqueColumnIdentifier>>,
    metadata: Vec<Option<ColumnMetadata>>,
}

impl View for ColumnGraph {
    type V = ColumnGraphView;

    closed spec fn view(&self) -> ColumnGraphView {
        ColumnGraphView {
            nodes: node_views(self.nodes@),
            edges: graph_edges(self.graph),
            groups: group_views(self.groups@),
            unique_identifiers: Seq::new(
                self.unique_identifiers@.len(),
                |i: int|
                    match self.unique_identifiers@[i] {
                        Some(u) => Some(u@),
                        None => None,
                    },
            ),
            metadata: Seq::new(
                self.metadata@.len(),
                |i: int|
                    match self.metadata@[i] {
                        Some(m) => Some(m@),
                        None => None,
                    },
            ),
        }
    }
}

/// A node of a column graph with its index, its staging column and the
/// metadata of its column.
#[derive(Debug, Clone, Copy)]
pub struct IndexedColumnNode<'a> {
    index: usize,
    column: &'a ColumnNode,
    unique_identifier: &'a UniqueColumnIdentifier,
    metadata: &'a ColumnMetadata,
}

impl<'a> View for IndexedColumnNode<'a> {
    type V = IndexedView;

    closed spec fn view(&self) -> IndexedView {
        IndexedView {
            index: self.index as int,
            column: self.column@,
            unique_identifier: self.unique_identifier@,
            metadata: self.metadata@,
        }
    }
}

impl<'a> IndexedColumnNode<'a> {
    pub fn index(&self) -> (r: usize)
        ensures
            r == self@.index,
    {
        self.index
    }

    pub fn column(&self) -> (r: &'a ColumnNode)
        ensures
            r@ == self@.column,
    {
        self.column
    }

    pub fn unique_identifier(&self) -> (r: &'a UniqueColumnIdentifier)
        ensures
            r@ == self@.unique_identifier,
    {
        self.unique_identifier
    }

    pub fn metadata(&self) -> (r: &'a ColumnMetadata)
        ensures
            r@ == self@.metadata,
    {
        self.metadata
    }
}

/// The views of a list of nodes.
pub open spec fn indexed_views(nodes: Seq<IndexedColumnNode>) -> Seq<IndexedView> {
    Seq::new(nodes.len(), |k: int| nodes[k]@)
}

/// No two nodes of a column graph have the same staging column.
pub proof fn lemma_unique_identifiers_distinct(graph: ColumnGraphView, i: int, j: int)
    requires
        graph.wf(),
        0 <= i < graph.nodes.len(),
        0 <= j < graph.nodes.len(),
        i != j,
        graph.nodes[i] is Some,
        graph.nodes[j] is Some,
    ensures
        graph.unique_identifiers[i] is Some,
        graph.unique_identifiers[j] is Some,
        graph.unique_identifiers[i] != graph.unique_identifiers[j],
{
    lemma_unique_names_differ(
        graph.nodes[i]->0.identifier(),
        i as nat,
        graph.nodes[j]->0.identifier(),
        j as nat,
    );
}

impl ColumnGraph {
    #[verifier::type_invariant]
    pub closed spec fn inv(&self) -> bool {
        &&& graph_slots(self.graph) == present(node_views(self.nodes@))
        &&& graph_tidy(self.graph)
        &&& self@.wf()
    }

    /// Builds the column graph of a table mapper: the nodes of its columns and
    /// of their lookup keys, duplicates merged unless the options forbid it,
    /// grouped in eager layers, each node with its staging column and with
    /// what the server says of its column.
    pub fn new(
        table_mapper: &TableMapper,
        table_metadata: &Vec<TableMetadata>,
        import_options: &ImportOptions,
    ) -> (r: Result<ColumnGraph, CreateColumnGraphError>)
        ensures
            match plan_of(table_mapper@.columns, !import_options.no_duplicate_optimization) {
                Err(key) => (r matches Err(
                    CreateColumnGraphError::ProcessedKeyColumnUnknownTargetColumn(c),
                ) && c@ == key),
                Ok(plan) => if has_cycle(plan.edges) {
                    (r matches Err(CreateColumnGraphError::ColumnCycle(c)) && names_cycle(
                        plan,
                        c@,
                    ))
                } else {
                    (r matches Ok(g) && g@.nodes == plan.nodes && g@.edges == plan.edges
                        && is_eager_grouping(present(plan.nodes), plan.edges, g@.groups)
                        && g@.unique_identifiers == unique_names(plan.nodes) && g@.metadata
                        == node_metadata(plan.nodes, table_views(table_metadata@)) && g@.wf())
                },
            },
            r matches Ok(g) ==> !has_cycle(g@.edges),
    {
        let optimize = !import_options.no_duplicate_optimization;
        let entries = build_entries(table_mapper.columns());
        let n = entries.len();
        let ghost built = entry_views(entries@);
        let ghost tables = table_views(table_metadata@);
        let processed = match resolve_processed_keys(&entries) {
            Ok(v) => v,
            Err(k) => {
                assert(built[k as int] == entries@[k as int]@);
                return Err(
                    CreateColumnGraphError::ProcessedKeyColumnUnknownTargetColumn(
                        Column::identifier(&entries[k].node).clone(),
                    ),
                );
            },
        };
        let mut edges = feed_edge_list(&entries);
        let ghost feed = edge_views(edges@);
        let mut k: usize = 0;
        assert(edge_views(edges@) =~= feed + edge_views(processed@).take(0));
        while k < processed.len()
            invariant
                k <= processed.len(),
                n == entries@.len(),
                edge_views(edges@) == feed + edge_views(processed@).take(k as int),
                edges_within(edge_views(edges@), n as int),
                edges_within(edge_views(processed@), n as int),
            decreases processed.len() - k,
        {
            let e = processed[k];
            proof {
                lemma_edge_views_push(edges@, e);
                let all = edge_views(processed@);
                assert(all[k as int] == (e.0 as int, e.1 as int));
                assert(all.take(k + 1) =~= all.take(k as int).push(all[k as int]));
                assert(feed + all.take(k + 1) =~= (feed + all.take(k as int)).push(all[k as int]));
            }
            edges.push(e);
            k += 1;
        }
        proof {
            let all = edge_views(processed@);
            assert(all.take(processed@.len() as int) == all);
            assert(edge_views(edges@) == built_edges(built));
        }
        let reps = representatives(&entries, optimize);
        let flags = merged_flags(&entries, &reps, optimize);
        let graph = build_topology(&reps, &edges, Ghost(built), Ghost(optimize));
        let ghost plan = plan_of(
            table_mapper@.columns,
            !import_options.no_duplicate_optimization,
        )->Ok_0;
        proof {
            lemma_merged_edges_between_nodes(edge_views(edges@), built, optimize);
            assert(plan.edges == graph_edges(graph));
            assert(present(plan.nodes) =~= planned_slots(built, optimize));
        }
        let order = match graph_toposort(&graph) {
            Ok(order) => order,
            Err(c) => {
                proof {
                    assert(built[c as int] == entries@[c as int]@);
                    lemma_representative(built, optimize, c as int);
                    assert(graph_slots(graph)[c as int]);
                    assert(representative(built, optimize, c as int) == c);
                    assert(plan.nodes[c as int] == planned_node(built, optimize, c as int));
                    assert(plan.nodes[c as int] is Some);
                    assert(plan.nodes[c as int]->0.identifier() == entries@[c as int].node@.identifier());
                    assert(on_cycle(plan.edges, c as int));
                    assert(has_cycle(plan.edges));
                }
                let identifier = Column::identifier(&entries[c].node).clone();
                proof {
                    let w = c as int;
                    assert(0 <= w < plan.nodes.len());
                    assert(plan.nodes[w]->0.identifier() == identifier@);
                    assert(0 <= w < plan.nodes.len() && on_cycle(plan.edges, w) && (
                    #[trigger] plan.nodes[w]) is Some && plan.nodes[w]->0.identifier()
                        == identifier@);
                    assert(names_cycle(plan, identifier@));
                }
                return Err(CreateColumnGraphError::ColumnCycle(identifier));
            },
        };
        proof {
            assert forall|m: int| !on_cycle(plan.edges, m) by {
                lemma_ordered_acyclic(graph_slots(graph), graph_edges(graph), as_ints(order@), m);
            }
        }
        let levels = compute_levels(&graph, &order, n);
        let mut alive: Vec<bool> = Vec::new();
        let mut nodes: Vec<Option<ColumnNode>> = Vec::new();
        let mut unique_identifiers: Vec<Option<UniqueColumnIdentifier>> = Vec::new();
        let mut metadata: Vec<Option<ColumnMetadata>> = Vec::new();
        let mut i: usize = 0;
        while i < n
            invariant
                i <= n,
                n == entries@.len(),
                built == entry_views(entries@),
                tables == table_views(table_metadata@),
                reps@.len() == n,
                flags@.len() == n,
                forall|j: int|
                    0 <= j < n ==> #[trigger] reps@[j] == representative(built, optimize, j),
                forall|j: int|
                    0 <= j < n ==> #[trigger] flags@[j] == crate::graph_plan::merged_map(
                        built,
                        optimize,
                        j,
                        n as int,
                    ),
                alive@.len() == i,
                nodes@.len() == i,
                unique_identifiers@.len() == i,
                metadata@.len() == i,
                forall|j: int|
                    0 <= j < i ==> #[trigger] alive@[j] == (representative(built, optimize, j)
                        == j),
                forall|j: int|
                    0 <= j < i ==> (match #[trigger] nodes@[j] {
                        Some(x) => Some(x@),
                        None => None,
                    }) == planned_node(built, optimize, j),
                forall|j: int|
                    0 <= j < i ==> ((#[trigger] nodes@[j]) matches Some(x)
                        ==> x@.identifier().wf()),
                forall|j: int|
                    0 <= j < i ==> (match #[trigger] unique_identifiers@[j] {
                        Some(x) => Some(x@),
                        None => None,
                    }) == (match planned_node(built, optimize, j) {
                        Some(x) => Some(unique_name(x.identifier(), j)),
                        None => None,
                    }),
                forall|j: int|
                    0 <= j < i ==> (match #[trigger] metadata@[j] {
                        Some(x) => Some(x@),
                        None => None,
                    }) == (match planned_node(built, optimize, j) {
                        Some(x) => Some(metadata_for(tables, x.identifier())),
                        None => None,
                    }),
            decreases n - i,
        {
            assert(built[i as int] == entries@[i as int]@);
            if reps[i] == i {
                let node = entries[i].node.duplicate().with_map(flags[i]);
                let identifier = Column::identifier(&entries[i].node);
                assert(node@.identifier() == identifier@);
                identifier.well_formed();
                alive.push(true);
                unique_identifiers.push(Some(UniqueColumnIdentifier::new(identifier, i)));
                metadata.push(Some(find_metadata(table_metadata, identifier)));
                nodes.push(Some(node));
            } else {
                alive.push(false);
                unique_identifiers.push(None);
                metadata.push(None);
                nodes.push(None);
            }
            i += 1;
        }
        proof {
            assert(alive@ =~= graph_slots(graph));
            assert(node_views(nodes@) =~= plan.nodes);
            assert forall|m: int| is_node(alive@, m) implies #[trigger] levels@[m]
                < usize::MAX by {
                assert(as_ints(levels@)[m] == levels@[m]);
            }
        }
        let groups = collect_groups(&alive, &levels);
        proof {
            lemma_groups_eager(
                graph_slots(graph),
                graph_edges(graph),
                as_ints(levels@),
                group_views(groups@),
            );
        }
        proof {
            let nv = node_views(nodes@);
            assert(nv =~= plan.nodes);
            assert forall|j: int| 0 <= j < nv.len() implies ((#[trigger] nv[j]) matches Some(x)
                ==> x.identifier().wf()) by {
                assert(nv[j] == (match nodes@[j] {
                    Some(x) => Some(x@),
                    None => None,
                }));
            }
            let uv = Seq::new(
                unique_identifiers@.len(),
                |i: int|
                    match unique_identifiers@[i] {
                        Some(u) => Some(u@),
                        None => None,
                    },
            );
            assert(uv =~= unique_names(nv));
        }
        let result = ColumnGraph { graph, nodes, groups, unique_identifiers, metadata };
        proof {
            assert(result@.nodes == plan.nodes);
            assert forall|j: int| 0 <= j < result@.nodes.len() implies ((
            #[trigger] result@.nodes[j]) matches Some(x) ==> x.identifier().wf()) by {
                assert(result@.nodes[j] == (match nodes@[j] {
                    Some(x) => Some(x@),
                    None => None,
                }));
            }
            assert(result@.unique_identifiers =~= unique_names(plan.nodes));
            assert(result@.metadata =~= node_metadata(plan.nodes, tables));
        }
        Ok(result)
    }

    fn indexed_at(&self, index: usize) -> (r: IndexedColumnNode<'_>)
        requires
            is_node(present(self@.nodes), index as int),
        ensures
            r@ == self@.indexed(index as int),
    {
        proof {
            use_type_invariant(self);
            assert(self@.nodes[index as int] is Some);
            assert(self@.unique_identifiers[index as int] is Some);
            assert(self@.metadata[index as int] is Some);
        }
        let column = match &self.nodes[index] {
            Some(n) => n,
            None => vstd::pervasive::unreached(),
        };
        let unique_identifier = match &self.unique_identifiers[index] {
            Some(u) => u,
            None => vstd::pervasive::unreached(),
        };
        let metadata = match &self.metadata[index] {
            Some(m) => m,
            None => vstd::pervasive::unreached(),
        };
        IndexedColumnNode { index, column, unique_identifier, metadata }
    }

    /// The graph is well formed.
    pub fn well_formed(&self)
        ensures
            self@.wf(),
    {
        proof {
            use_type_invariant(self);
        }
    }

    /// The number of indices: one more than the greatest index of a node.
    pub fn node_bound(&self) -> (r: usize)
        ensures
            r == self@.nodes.len(),
    {
        self.nodes.len()
    }

    /// The nodes that are written to the target table, in the order of their
    /// indices.
    pub fn target_columns(&self) -> (r: Vec<IndexedColumnNode<'_>>)
        ensures
            indexed_views(r@) == self@.indexed_all(self@.mapped(self@.nodes.len() as int)),
    {
        proof {
            use_type_invariant(self);
        }
        let mut out: Vec<IndexedColumnNode<'_>> = Vec::new();
        let mut i: usize = 0;
        assert(indexed_views(out@) =~= self@.indexed_all(self@.mapped(0)));
        while i < self.nodes.len()
            invariant
                i <= self.nodes.len(),
                self.nodes@.len() == self@.nodes.len(),
                indexed_views(out@) == self@.indexed_all(self@.mapped(i as int)),
            decreases self.nodes.len() - i,
        {
            let ghost before = self@.mapped(i as int);
            assert(self@.nodes[i as int] == (match self.nodes@[i as int] {
                Some(n) => Some(n@),
                None => None,
            }));
            let mapped = match &self.nodes[i] {
                Some(n) => Column::map(n),
                None => false,
            };
            if mapped {
                let node = self.indexed_at(i);
                proof {
                    let old_views = indexed_views(out@);
                    let old_all = self@.indexed_all(before);
                    assert(old_views.len() == out@.len());
                    assert(old_all.len() == before.len());
                    assert forall|k: int| 0 <= k < out@.len() implies out@[k]@
                        == self@.indexed(before[k]) by {
                        assert(old_views[k] == out@[k]@);
                        assert(old_all[k] == self@.indexed(before[k]));
                    }
                    assert(indexed_views(out@.push(node)) =~= self@.indexed_all(
                        before.push(i as int),
                    ));
                }
                out.push(node);
            }
            i += 1;
        }
        out
    }

    fn indexed_list(&self, indices: &Vec<usize>) -> (r: Vec<IndexedColumnNode<'_>>)
        requires
            forall|k: int|
                0 <= k < indices@.len() ==> is_node(present(self@.nodes), #[trigger] indices@[k] as int),
        ensures
            indexed_views(r@) == self@.indexed_all(as_ints(indices@)),
    {
        let mut out: Vec<IndexedColumnNode<'_>> = Vec::new();
        let mut k: usize = 0;
        while k < indices.len()
            invariant
                k <= indices.len(),
                forall|m: int|
                    0 <= m < indices@.len() ==> is_node(
                        present(self@.nodes),
                        #[trigger] indices@[m] as int,
                    ),
                out@.len() == k,
                forall|m: int| 0 <= m < k ==> (#[trigger] out@[m])@ == self@.indexed(indices@[m] as int),
            decreases indices.len() - k,
        {
            let node = self.indexed_at(indices[k]);
            out.push(node);
            k += 1;
        }
        assert(indexed_views(out@) =~= self@.indexed_all(as_ints(indices@)));
        out
    }

    /// The nodes in eager layers: the first group is bulk-inserted, each
    /// later group is filled by one update.
    pub fn groups(&self) -> (r: Vec<Vec<IndexedColumnNode<'_>>>)
        ensures
            r@.len() == self@.groups.len(),
            forall|l: int|
                0 <= l < r@.len() ==> indexed_views((#[trigger] r@[l])@) == self@.indexed_all(
                    self@.groups[l],
                ),
    {
        proof {
            use_type_invariant(self);
        }
        let mut out: Vec<Vec<IndexedColumnNode<'_>>> = Vec::new();
        let mut l: usize = 0;
        while l < self.groups.len()
            invariant
                l <= self.groups.len(),
                self.groups@.len() == self@.groups.len(),
                self@.wf(),
                out@.len() == l,
                forall|m: int|
                    0 <= m < l ==> indexed_views((#[trigger] out@[m])@) == self@.indexed_all(
                        self@.groups[m],
                    ),
            decreases self.groups.len() - l,
        {
            let group = &self.groups[l];
            proof {
                assert(self@.groups[l as int] == as_ints(group@));
                assert forall|k: int| 0 <= k < group@.len() implies is_node(
                    present(self@.nodes),
                    #[trigger] group@[k] as int,
                ) by {
                    assert(self@.groups[l as int][k] == group@[k] as int);
                }
            }
            out.push(self.indexed_list(group));
            l += 1;
        }
        out
    }

    /// The nodes with an edge to the node at `index`, that of the edge added
    /// last first.
    pub fn column_dependencies(&self, index: usize) -> (r: Vec<IndexedColumnNode<'_>>)
        ensures
            indexed_views(r@) == self@.indexed_all(incoming_sources(self@.edges, index as int)),
    {
        proof {
            use_type_invariant(self);
        }
        let sources = graph_incoming(&self.graph, index);
        proof {
            assert forall|k: int| 0 <= k < sources@.len() implies is_node(
                present(self@.nodes),
                #[trigger] sources@[k] as int,
            ) by {
                let all = incoming_sources(self@.edges, index as int);
                assert(all[k] == sources@[k] as int);
                assert(all.contains(sources@[k] as int));
                lemma_incoming_sources(self@.edges, index as int, sources@[k] as int);
                lemma_edge_ends(
                    present(self@.nodes),
                    self@.edges,
                    sources@[k] as int,
                    index as int,
                );
            }
        }
        self.indexed_list(&sources)
    }
}

} // verus!
