use crate::column_graph::{
    indexed_views, ColumnGraph, ColumnGraphView, ColumnNode, IndexedColumnNode, IndexedView,
    NodeView, present,
};
use crate::identifier::{unescaped, ColumnIdentifier, ColumnName, Identifier};
use crate::insert_processor::cell_views;
use crate::sql_value::{coerce, coerced, decimal_of_text, CellValue, CellView};
use crate::table_mapper::{Column, Table};
use crate::temporary_table::TemporaryTable;
use crate::text::{decimal_text, join, joined, lemma_text_views_push, push_decimal, text_views};
use crate::topology::{incoming_sources, is_node, lemma_edge_ends, lemma_incoming_sources};
use vstd::prelude::*;

verus! {

/// Why a group of lookups could not be resolved.
#[derive(Debug)]
pub enum UpdateProcessorError {
    /// The static column that a lookup is matched with has a type that the
    /// import does not handle.
    UnsupportedType { column: ColumnIdentifier },
    /// The value of the static column cannot be read as its type asks.
    InvalidValue { column: ColumnIdentifier, value: String },
    /// The server refused the statement; its message.
    UpdateFailed(String),
}

pub enum ParameterFailure {
    UnsupportedType { column: ColumnName },
    InvalidValue { column: ColumnName, value: Seq<char> },
    UpdateFailed(Seq<char>),
}

impl View for UpdateProcessorError {
    type V = ParameterFailure;

    open spec fn view(&self) -> ParameterFailure {
        match self {
            UpdateProcessorError::UnsupportedType { column } => ParameterFailure::UnsupportedType {
                column: column@,
            },
            UpdateProcessorError::InvalidValue { column, value } => ParameterFailure::InvalidValue {
                column: column@,
                value: value@,
            },
            UpdateProcessorError::UpdateFailed(m) => ParameterFailure::UpdateFailed(m@),
        }
    }
}

/// The statement that fills the lookups of one group, with the values of its
/// parameters in the order of their placeholders.
#[derive(Debug)]
pub struct UpdateStatement {
    pub text: String,
    pub parameters: Vec<CellValue>,
}

/// A key of a lookup with the node that supplies its value.
pub struct DependencyView {
    pub key: ColumnName,
    pub node: int,
}

/// The node that supplies the value of the key node `start`: from the key
/// node back along the first edge into each node, the first node that is not
/// transient; the key node itself where the walk finds none. The walk takes
/// at most `fuel` steps.
pub open spec fn effective_dependency(graph: ColumnGraphView, start: int, current: int, fuel: nat) -> int
    decreases fuel,
{
    if !graph.nodes[current]->0.is_transient() {
        current
    } else {
        let incoming = incoming_sources(graph.edges, current);
        if fuel == 0 || incoming.len() == 0 {
            start
        } else {
            effective_dependency(graph, start, incoming[0], (fuel - 1) as nat)
        }
    }
}

/// The keys of the lookup at `index`, each with the node that supplies it.
pub open spec fn dependencies(graph: ColumnGraphView, index: int) -> Seq<DependencyView> {
    let incoming = incoming_sources(graph.edges, index);
    Seq::new(
        incoming.len(),
        |k: int|
            DependencyView {
                key: graph.nodes[incoming[k]]->0.identifier(),
                node: effective_dependency(graph, incoming[k], incoming[k], graph.nodes.len()),
            },
    )
}

/// Whether a key is supplied by a static column.
pub open spec fn is_static(graph: ColumnGraphView, dependency: DependencyView) -> bool {
    graph.nodes[dependency.node]->0 is Static
}

/// The conditions on the keys among the first `upto` that a staging column
/// supplies.
pub open spec fn column_conditions(
    graph: ColumnGraphView,
    deps: Seq<DependencyView>,
    upto: int,
) -> Seq<Seq<char>>
    decreases upto,
{
    if upto <= 0 {
        Seq::empty()
    } else {
        let before = column_conditions(graph, deps, upto - 1);
        let d = deps[upto - 1];
        if is_static(graph, d) {
            before
        } else {
            before.push(
                "l_inner."@ + d.key.column + " = t."@ + graph.unique_identifiers[d.node]->0.column,
            )
        }
    }
}

/// The number of keys among the first `upto` that a static column supplies.
pub open spec fn static_count(graph: ColumnGraphView, deps: Seq<DependencyView>, upto: int) -> nat
    decreases upto,
{
    if upto <= 0 {
        0
    } else {
        static_count(graph, deps, upto - 1) + if is_static(graph, deps[upto - 1]) {
            1nat
        } else {
            0nat
        }
    }
}

/// The conditions on the keys among the first `upto` that a static column
/// supplies; the placeholders are numbered from `first` on.
pub open spec fn static_conditions(
    graph: ColumnGraphView,
    deps: Seq<DependencyView>,
    upto: int,
    first: nat,
) -> Seq<Seq<char>>
    decreases upto,
{
    if upto <= 0 {
        Seq::empty()
    } else {
        let before = static_conditions(graph, deps, upto - 1, first);
        let d = deps[upto - 1];
        if is_static(graph, d) {
            before.push(
                "l_inner."@ + d.key.column + " = @P"@ + decimal_text(
                    first + static_count(graph, deps, upto - 1),
                ),
            )
        } else {
            before
        }
    }
}

/// The value of the parameter for a key that a static column supplies: the
/// value of the column, read as the type of the column asks.
pub open spec fn parameter_of(graph: ColumnGraphView, dependency: DependencyView) -> Result<
    CellView,
    ParameterFailure,
> {
    let column = graph.nodes[dependency.node]->0->Static_column;
    let ty = graph.metadata[dependency.node]->0.ty;
    match coerced(ty, column.value, decimal_of_text(column.value)) {
        None => Err(ParameterFailure::UnsupportedType { column: column.column }),
        Some(cell) => if cell.is_missing() {
            Err(ParameterFailure::InvalidValue { column: column.column, value: column.value })
        } else {
            Ok(cell)
        },
    }
}

/// The parameters for the keys among the first `upto` that a static column
/// supplies, or what is wrong with the first that has none.
pub open spec fn parameters_of(
    graph: ColumnGraphView,
    deps: Seq<DependencyView>,
    upto: int,
) -> Result<Seq<CellView>, ParameterFailure>
    decreases upto,
{
    if upto <= 0 {
        Ok(Seq::empty())
    } else {
        match parameters_of(graph, deps, upto - 1) {
            Err(e) => Err(e),
            Ok(before) => if is_static(graph, deps[upto - 1]) {
                match parameter_of(graph, deps[upto - 1]) {
                    Err(e) => Err(e),
                    Ok(cell) => Ok(before.push(cell)),
                }
            } else {
                Ok(before)
            },
        }
    }
}

/// The assignment that gives a lookup its value.
pub open spec fn set_part(lookup: IndexedView) -> Seq<char> {
    "t."@ + lookup.unique_identifier.column + " = l_"@ + unescaped(lookup.unique_identifier.column)
        + "."@ + lookup.column->Lookup_column.output.column
}

/// The subquery that finds the value of a lookup.
pub open spec fn outer_apply_part(
    lookup: IndexedView,
    column_condition: Seq<char>,
    static_condition: Seq<char>,
) -> Seq<char> {
    "OUTER APPLY (\n    SELECT TOP 1 l_inner."@ + lookup.column->Lookup_column.output.column
        + "\n    FROM "@ + lookup.column->Lookup_column.table.full() + " l_inner\n    WHERE\n        "@
        + column_condition + "\n        "@ + (if static_condition.len() > 0 {
        "AND"@
    } else {
        Seq::empty()
    }) + "\n        "@ + static_condition + "\n) l_"@ + unescaped(lookup.unique_identifier.column)
        + "\n"@
}

/// The number of parameters of the lookups among the first `upto` nodes.
pub open spec fn statics_before(graph: ColumnGraphView, nodes: Seq<IndexedView>, upto: int) -> nat
    decreases upto,
{
    if upto <= 0 {
        0
    } else {
        let deps = dependencies(graph, nodes[upto - 1].index);
        statics_before(graph, nodes, upto - 1) + if nodes[upto - 1].column is Lookup {
            static_count(graph, deps, deps.len() as int)
        } else {
            0nat
        }
    }
}

/// The assignments of the lookups among the first `upto` nodes.
pub open spec fn set_parts(nodes: Seq<IndexedView>, upto: int) -> Seq<Seq<char>>
    decreases upto,
{
    if upto <= 0 {
        Seq::empty()
    } else {
        let before = set_parts(nodes, upto - 1);
        if nodes[upto - 1].column is Lookup {
            before.push(set_part(nodes[upto - 1]))
        } else {
            before
        }
    }
}

/// The subquery of the lookup `lookup`, whose placeholders are numbered from
/// `first` on.
pub open spec fn lookup_apply(graph: ColumnGraphView, lookup: IndexedView, first: nat) -> Seq<char> {
    let deps = dependencies(graph, lookup.index);
    outer_apply_part(
        lookup,
        joined(column_conditions(graph, deps, deps.len() as int), " AND "@),
        joined(static_conditions(graph, deps, deps.len() as int, first), " AND "@),
    )
}

/// The subqueries of the lookups among the first `upto` nodes.
pub open spec fn apply_parts(graph: ColumnGraphView, nodes: Seq<IndexedView>, upto: int) -> Seq<
    Seq<char>,
>
    decreases upto,
{
    if upto <= 0 {
        Seq::empty()
    } else {
        let before = apply_parts(graph, nodes, upto - 1);
        if nodes[upto - 1].column is Lookup {
            before.push(
                lookup_apply(graph, nodes[upto - 1], statics_before(graph, nodes, upto - 1)),
            )
        } else {
            before
        }
    }
}

/// The parameters of the lookups among the first `upto` nodes, in the order
/// of their placeholders, or what is wrong with the first that has none.
pub open spec fn all_parameters(graph: ColumnGraphView, nodes: Seq<IndexedView>, upto: int) -> Result<
    Seq<CellView>,
    ParameterFailure,
>
    decreases upto,
{
    if upto <= 0 {
        Ok(Seq::empty())
    } else {
        match all_parameters(graph, nodes, upto - 1) {
            Err(e) => Err(e),
            Ok(before) => if nodes[upto - 1].column is Lookup {
                let deps = dependencies(graph, nodes[upto - 1].index);
                match parameters_of(graph, deps, deps.len() as int) {
                    Err(e) => Err(e),
                    Ok(cells) => Ok(before + cells),
                }
            } else {
                Ok(before)
            },
        }
    }
}

/// The statement that fills the lookups of a group.
pub open spec fn update_text(staging: Seq<char>, sets: Seq<Seq<char>>, applies: Seq<Seq<char>>) -> Seq<
    char,
> {
    "UPDATE t\nSET\n    "@ + joined(sets, ",\n    "@) + "\nFROM "@ + staging + " t\n"@ + joined(
        applies,
        Seq::empty(),
    ) + "\n"@
}

/// A failure among the first nodes is the failure of the whole group.
pub proof fn lemma_all_parameters_fail(graph: ColumnGraphView, nodes: Seq<IndexedView>, i: int)
    requires
        0 <= i < nodes.len(),
        all_parameters(graph, nodes, i + 1) is Err,
    ensures
        all_parameters(graph, nodes, nodes.len() as int) == all_parameters(graph, nodes, i + 1),
    decreases nodes.len() - i,
{
    if i + 1 < nodes.len() {
        lemma_all_parameters_fail(graph, nodes, i + 1);
    }
}

/// A failure among the first keys is the failure of all keys.
pub proof fn lemma_parameters_fail(graph: ColumnGraphView, deps: Seq<DependencyView>, i: int)
    requires
        0 <= i < deps.len(),
        parameters_of(graph, deps, i + 1) is Err,
    ensures
        parameters_of(graph, deps, deps.len() as int) == parameters_of(graph, deps, i + 1),
    decreases deps.len() - i,
{
    if i + 1 < deps.len() {
        lemma_parameters_fail(graph, deps, i + 1);
    }
}

fn resolve_dependency<'a>(column_graph: &'a ColumnGraph, start: IndexedColumnNode<'a>) -> (r:
    IndexedColumnNode<'a>)
    requires
        is_node(present(column_graph@.nodes), start@.index),
        start@ == column_graph@.indexed(start@.index),
    ensures
        r@ == column_graph@.indexed(
            effective_dependency(
                column_graph@,
                start@.index,
                start@.index,
                column_graph@.nodes.len(),
            ),
        ),
        is_node(
            present(column_graph@.nodes),
            effective_dependency(
                column_graph@,
                start@.index,
                start@.index,
                column_graph@.nodes.len(),
            ),
        ),
{
    column_graph.well_formed();
    let ghost graph = column_graph@;
    let ghost goal = effective_dependency(graph, start@.index, start@.index, graph.nodes.len());
    let mut current = start;
    let mut found = start;
    let mut fuel = column_graph.node_bound();
    loop
        invariant_except_break
            is_node(present(graph.nodes), current@.index),
            current@ == graph.indexed(current@.index),
            goal == effective_dependency(graph, start@.index, current@.index, fuel as nat),
        invariant
            graph == column_graph@,
            graph.wf(),
            is_node(present(graph.nodes), start@.index),
            start@ == graph.indexed(start@.index),
        ensures
            found@ == graph.indexed(goal),
            is_node(present(graph.nodes), goal),
        decreases fuel,
    {
        if !current.column().is_transient() {
            found = current;
            break ;
        }
        let incoming = column_graph.column_dependencies(current.index());
        let ghost sources = incoming_sources(graph.edges, current@.index);
        proof {
            assert(indexed_views(incoming@).len() == sources.len());
        }
        if fuel == 0 || incoming.len() == 0 {
            found = start;
            break ;
        }
        proof {
            assert(sources.contains(sources[0]));
            lemma_incoming_sources(graph.edges, current@.index, sources[0]);
            lemma_edge_ends(present(graph.nodes), graph.edges, sources[0], current@.index);
            assert(indexed_views(incoming@)[0] == incoming@[0]@);
            assert(graph.indexed_all(sources)[0] == graph.indexed(sources[0]));
        }
        current = incoming[0];
        fuel = fuel - 1;
    }
    found
}

/// The conditions of one lookup. The values of the parameters are added to
/// `parameters`, whose length numbers the placeholders.
fn lookup_conditions(
    column_graph: &ColumnGraph,
    index: usize,
    parameters: &mut Vec<CellValue>,
) -> (r: Result<(Vec<String>, Vec<String>), UpdateProcessorError>)
    ensures
        ({
            let graph = column_graph@;
            let deps = dependencies(graph, index as int);
            match parameters_of(graph, deps, deps.len() as int) {
                Err(e) => r matches Err(x) && x@ == e,
                Ok(cells) => {
                    &&& r matches Ok(conditions)
                    &&& text_views(conditions.0@) == column_conditions(
                        graph,
                        deps,
                        deps.len() as int,
                    )
                    &&& text_views(conditions.1@) == static_conditions(
                        graph,
                        deps,
                        deps.len() as int,
                        old(parameters)@.len(),
                    )
                    &&& cell_views(final(parameters)@) == cell_views(old(parameters)@) + cells
                    &&& cells.len() == static_count(graph, deps, deps.len() as int)
                },
            }
        }),
{
    column_graph.well_formed();
    let ghost graph = column_graph@;
    let ghost deps = dependencies(graph, index as int);
    let ghost sources = incoming_sources(graph.edges, index as int);
    let ghost start = cell_views(parameters@);
    let ghost first = parameters@.len();
    let incoming = column_graph.column_dependencies(index);
    let mut column_parts: Vec<String> = Vec::new();
    let mut static_parts: Vec<String> = Vec::new();
    let mut k: usize = 0;
    proof {
        assert(indexed_views(incoming@).len() == sources.len());
        assert(text_views(column_parts@) =~= column_conditions(graph, deps, 0));
        assert(text_views(static_parts@) =~= static_conditions(graph, deps, 0, first));
        assert(cell_views(parameters@) =~= start + Seq::<CellView>::empty());
    }
    while k < incoming.len()
        invariant
            k <= incoming.len(),
            graph == column_graph@,
            graph.wf(),
            deps == dependencies(graph, index as int),
            sources == incoming_sources(graph.edges, index as int),
            indexed_views(incoming@) == graph.indexed_all(sources),
            incoming@.len() == sources.len(),
            deps.len() == sources.len(),
            first == old(parameters)@.len(),
            start == cell_views(old(parameters)@),
            parameters_of(graph, deps, k as int) is Ok,
            cell_views(parameters@) == start + parameters_of(graph, deps, k as int)->Ok_0,
            parameters_of(graph, deps, k as int)->Ok_0.len() == static_count(graph, deps, k as int),
            parameters@.len() == first + static_count(graph, deps, k as int),
            text_views(column_parts@) == column_conditions(graph, deps, k as int),
            text_views(static_parts@) == static_conditions(graph, deps, k as int, first),
        decreases incoming.len() - k,
    {
        let dependency = incoming[k];
        let ghost source = sources[k as int];
        proof {
            assert(sources.contains(source));
            lemma_incoming_sources(graph.edges, index as int, source);
            lemma_edge_ends(present(graph.nodes), graph.edges, source, index as int);
            assert(indexed_views(incoming@)[k as int] == dependency@);
            assert(graph.indexed_all(sources)[k as int] == graph.indexed(source));
            assert(cell_views(parameters@).len() == parameters@.len());
        }
        let key = Column::identifier(dependency.column());
        let resolved = resolve_dependency(column_graph, dependency);
        let ghost d = deps[k as int];
        let ghost cells = parameters_of(graph, deps, k as int)->Ok_0;
        match resolved.column() {
            ColumnNode::StaticColumn { column: static_column, .. } => {
                let mut condition = "l_inner.".to_owned();
                condition.append(key.part());
                condition.append(" = @P");
                push_decimal(&mut condition, parameters.len());
                let cell = match coerce(&resolved.metadata().ty, static_column.value()) {
                    Some(cell) => cell,
                    None => {
                        proof {
                            lemma_parameters_fail(graph, deps, k as int);
                        }
                        return Err(
                            UpdateProcessorError::UnsupportedType {
                                column: Column::identifier(static_column).clone(),
                            },
                        );
                    },
                };
                if cell.is_missing() {
                    proof {
                        lemma_parameters_fail(graph, deps, k as int);
                    }
                    return Err(
                        UpdateProcessorError::InvalidValue {
                            column: Column::identifier(static_column).clone(),
                            value: static_column.value().to_owned(),
                        },
                    );
                }
                proof {
                    lemma_text_views_push(static_parts@, condition);
                    assert(cell_views(parameters@.push(cell)) =~= cell_views(parameters@).push(
                        cell@,
                    ));
                    assert((start + cells).push(cell@) =~= start + cells.push(cell@));
                }
                static_parts.push(condition);
                parameters.push(cell);
            },
            _ => {
                let mut condition = "l_inner.".to_owned();
                condition.append(key.part());
                condition.append(" = t.");
                condition.append(resolved.unique_identifier().part());
                proof {
                    lemma_text_views_push(column_parts@, condition);
                }
                column_parts.push(condition);
            },
        }
        k += 1;
    }
    Ok((column_parts, static_parts))
}

/// The statement that fills the lookups among `columns`, the nodes of one
/// group of the graph: none where there is no lookup among them.
pub fn update_statement(
    temporary_table: &TemporaryTable,
    columns: &Vec<IndexedColumnNode<'_>>,
    column_graph: &ColumnGraph,
) -> (r: Result<Option<UpdateStatement>, UpdateProcessorError>)
    ensures
        ({
            let graph = column_graph@;
            let nodes = indexed_views(columns@);
            let n = nodes.len() as int;
            match all_parameters(graph, nodes, n) {
                Err(e) => r matches Err(x) && x@ == e,
                Ok(cells) => if set_parts(nodes, n).len() == 0 {
                    r matches Ok(None)
                } else {
                    r matches Ok(Some(statement)) && statement.text@ == update_text(
                        temporary_table.table_view().full(),
                        set_parts(nodes, n),
                        apply_parts(graph, nodes, n),
                    ) && cell_views(statement.parameters@) == cells
                },
            }
        }),
{
    let ghost graph = column_graph@;
    let ghost nodes = indexed_views(columns@);
    let mut parameters: Vec<CellValue> = Vec::new();
    let mut sets: Vec<String> = Vec::new();
    let mut applies: Vec<String> = Vec::new();
    let mut i: usize = 0;
    proof {
        assert(cell_views(parameters@) =~= Seq::<CellView>::empty());
        assert(text_views(sets@) =~= set_parts(nodes, 0));
        assert(text_views(applies@) =~= apply_parts(graph, nodes, 0));
    }
    while i < columns.len()
        invariant
            i <= columns.len(),
            graph == column_graph@,
            nodes == indexed_views(columns@),
            all_parameters(graph, nodes, i as int) == Ok::<Seq<CellView>, ParameterFailure>(
                cell_views(parameters@),
            ),
            parameters@.len() == statics_before(graph, nodes, i as int),
            text_views(sets@) == set_parts(nodes, i as int),
            text_views(applies@) == apply_parts(graph, nodes, i as int),
        decreases columns.len() - i,
    {
        let column = &columns[i];
        assert(nodes[i as int] == column@);
        match column.column() {
            ColumnNode::LookupColumn { column: lookup_column, .. } => {
                let ghost before = cell_views(parameters@);
                let ghost first = parameters@.len();
                let conditions = match lookup_conditions(
                    column_graph,
                    column.index(),
                    &mut parameters,
                ) {
                    Ok(conditions) => conditions,
                    Err(e) => {
                        proof {
                            lemma_all_parameters_fail(graph, nodes, i as int);
                        }
                        return Err(e);
                    },
                };
                proof {
                    assert(cell_views(parameters@).len() == parameters@.len());
                    assert(before.len() == first);
                }
                let column_condition = join(&conditions.0, " AND ");
                let static_condition = join(&conditions.1, " AND ");
                let unique = column.unique_identifier();
                let mut set = "t.".to_owned();
                set.append(unique.part());
                set.append(" = l_");
                set.append(unique.part_unescaped());
                set.append(".");
                set.append(lookup_column.output_column_identifier().part());
                let mut apply = "OUTER APPLY (\n    SELECT TOP 1 l_inner.".to_owned();
                apply.append(lookup_column.output_column_identifier().part());
                apply.append("\n    FROM ");
                apply.append(Table::identifier(lookup_column).full());
                apply.append(" l_inner\n    WHERE\n        ");
                apply.append(column_condition.as_str());
                apply.append("\n        ");
                if !static_condition.as_str().is_empty() {
                    apply.append("AND");
                }
                apply.append("\n        ");
                apply.append(static_condition.as_str());
                apply.append("\n) l_");
                apply.append(unique.part_unescaped());
                apply.append("\n");
                proof {
                    assert(apply@ =~= lookup_apply(graph, column@, first as nat));
                    lemma_text_views_push(sets@, set);
                    lemma_text_views_push(applies@, apply);
                }
                sets.push(set);
                applies.push(apply);
            },
            _ => {},
        }
        i += 1;
    }
    if sets.len() == 0 {
        return Ok(None);
    }
    let mut text = "UPDATE t\nSET\n    ".to_owned();
    text.append(join(&sets, ",\n    ").as_str());
    text.append("\nFROM ");
    text.append(Table::identifier(temporary_table).full());
    text.append(" t\n");
    text.append(join(&applies, "").as_str());
    text.append("\n");
    proof {
        reveal_strlit("");
        assert(""@ =~= Seq::<char>::empty());
    }
    Ok(Some(UpdateStatement { text, parameters }))
}

} // verus!
