use crate::column_graph::{ColumnGraph, ColumnGraphView, IndexedColumnNode, IndexedView};
use crate::identifier::{
    is_normalized_part, lemma_normalize_part_idempotent, Identifier, SchemaIdentifier,
    TableIdentifier, TableName,
};
use crate::import_options::ImportOptions;
use crate::table_mapper::Table;
use crate::text::{join, joined, text_views};
use vstd::prelude::*;

verus! {

/// The staging table of one import: it lies in the schema `[import]` and has
/// the name of the target table.
#[derive(Debug)]
pub struct TemporaryTable {
    table_identifier: TableIdentifier,
    create_statement: String,
}

/// Why no staging table could be made.
#[derive(Debug)]
pub enum CreateTemporaryTableError {
    /// Every column of the graph is transient, so the table would be empty.
    NoNonTransientColumns,
    /// The server refused the statement; its message.
    CreateTableFailed(String),
}

/// The schema of all staging tables.
pub open spec fn staging_schema() -> Seq<char> {
    seq!['[', 'i', 'm', 'p', 'o', 'r', 't', ']']
}

/// The staging table for the target table `target`.
pub open spec fn staging_table(target: TableName) -> TableName {
    TableName { schema: staging_schema(), table: target.table }
}

/// The definition of the staging column of a node in the group `group`: its
/// name, its type, and whether it may be empty. It may where the server says
/// so of the column, and in every group after the first, since such a column
/// is only filled after the rows are inserted.
pub open spec fn column_definition(node: IndexedView, group: int) -> Seq<char> {
    node.unique_identifier.column + " "@ + node.metadata.sql_name + " "@ + (if node.metadata.flags.nullable
        || group > 0 {
        "NULL"@
    } else {
        "NOT NULL"@
    })
}

/// The definitions of the first `upto` nodes of a group, the transient ones
/// left out.
pub open spec fn group_definitions(nodes: Seq<IndexedView>, group: int, upto: int) -> Seq<
    Seq<char>,
>
    decreases upto,
{
    if upto <= 0 {
        Seq::empty()
    } else {
        let before = group_definitions(nodes, group, upto - 1);
        if nodes[upto - 1].column.is_transient() {
            before
        } else {
            before.push(column_definition(nodes[upto - 1], group))
        }
    }
}

/// The definitions of the staging columns of the first `upto` groups.
pub open spec fn staging_definitions(graph: ColumnGraphView, upto: int) -> Seq<Seq<char>>
    decreases upto,
{
    if upto <= 0 {
        Seq::empty()
    } else {
        let nodes = graph.indexed_all(graph.groups[upto - 1]);
        staging_definitions(graph, upto - 1) + group_definitions(
            nodes,
            upto - 1,
            nodes.len() as int,
        )
    }
}

/// The statement that drops an earlier staging table of the name and creates
/// the new one.
pub open spec fn create_statement(table: Seq<char>, definitions: Seq<Seq<char>>) -> Seq<char> {
    "IF EXISTS (SELECT * FROM sys.objects WHERE object_id = OBJECT_ID(N'"@ + table
        + "') AND type in (N'U'))\nBEGIN\n    DROP TABLE "@ + table
        + "\nEND\n\nCREATE TABLE "@ + table + " (\n    "@ + joined(definitions, ",\n    "@)
        + "\n)\n"@
}

/// The statement that drops the staging table.
pub open spec fn drop_statement(table: Seq<char>) -> Seq<char> {
    "DROP TABLE "@ + table + "\n"@
}

fn define_column(node: &IndexedColumnNode<'_>, group: usize) -> (r: String)
    ensures
        r@ == column_definition(node@, group as int),
{
    let mut out = node.unique_identifier().part().to_owned();
    out.append(" ");
    out.append(node.metadata().sql_name.as_str());
    out.append(" ");
    if node.metadata().flags.nullable || group > 0 {
        out.append("NULL");
    } else {
        out.append("NOT NULL");
    }
    out
}

impl TemporaryTable {
    pub closed spec fn table_view(&self) -> TableName {
        self.table_identifier@
    }

    pub closed spec fn statement_view(&self) -> Seq<char> {
        self.create_statement@
    }

    /// Plans the staging table for `target_table`: one column for each node
    /// of the graph that is not transient, group by group.
    pub fn new(target_table: &TableIdentifier, column_graph: &ColumnGraph) -> (r: Result<
        TemporaryTable,
        CreateTemporaryTableError,
    >)
        ensures
            match r {
                Ok(t) => {
                    &&& t.table_view() == staging_table(target_table@)
                    &&& t.statement_view() == create_statement(
                        staging_table(target_table@).full(),
                        staging_definitions(column_graph@, column_graph@.groups.len() as int),
                    )
                    &&& staging_definitions(column_graph@, column_graph@.groups.len() as int).len()
                        > 0
                },
                Err(e) => e is NoNonTransientColumns && staging_definitions(
                    column_graph@,
                    column_graph@.groups.len() as int,
                ).len() == 0,
            },
    {
        target_table.well_formed();
        let schema = match SchemaIdentifier::parse("[import]") {
            Ok(s) => s,
            Err(_) => {
                proof {
                    reveal_strlit("[import]");
                    lemma_staging_schema();
                    assert("[import]"@ =~= staging_schema());
                }
                assert(false);
                vstd::pervasive::unreached()
            },
        };
        proof {
            reveal_strlit("[import]");
            lemma_staging_schema();
            assert("[import]"@ =~= staging_schema());
            lemma_normalize_part_idempotent(target_table@.table);
        }
        let table_identifier = match TableIdentifier::with_schema(&schema, target_table.part()) {
            Ok(t) => t,
            Err(_) => {
                assert(false);
                vstd::pervasive::unreached()
            },
        };
        let groups = column_graph.groups();
        let mut columns: Vec<String> = Vec::new();
        let mut l: usize = 0;
        assert(text_views(columns@) =~= staging_definitions(column_graph@, 0));
        while l < groups.len()
            invariant
                l <= groups.len(),
                groups@.len() == column_graph@.groups.len(),
                forall|m: int|
                    0 <= m < groups@.len() ==> crate::column_graph::indexed_views(
                        (#[trigger] groups@[m])@,
                    ) == column_graph@.indexed_all(column_graph@.groups[m]),
                text_views(columns@) == staging_definitions(column_graph@, l as int),
            decreases groups.len() - l,
        {
            let group = &groups[l];
            let ghost nodes = column_graph@.indexed_all(column_graph@.groups[l as int]);
            let ghost before = text_views(columns@);
            let mut i: usize = 0;
            assert(nodes == crate::column_graph::indexed_views(group@));
            assert(before + group_definitions(nodes, l as int, 0) =~= before);
            while i < group.len()
                invariant
                    i <= group.len(),
                    nodes == crate::column_graph::indexed_views(group@),
                    text_views(columns@) == before + group_definitions(nodes, l as int, i as int),
                decreases group.len() - i,
            {
                let node = &group[i];
                assert(nodes[i as int] == node@);
                if !node.column().is_transient() {
                    let definition = define_column(node, l);
                    proof {
                        let so_far = group_definitions(nodes, l as int, i as int);
                        crate::text::lemma_text_views_push(columns@, definition);
                        assert((before + so_far).push(definition@) =~= before + so_far.push(
                            definition@,
                        ));
                    }
                    columns.push(definition);
                }
                i += 1;
            }
            l += 1;
        }
        if columns.len() == 0 {
            return Err(CreateTemporaryTableError::NoNonTransientColumns);
        }
        let mut statement =
            "IF EXISTS (SELECT * FROM sys.objects WHERE object_id = OBJECT_ID(N'".to_owned();
        statement.append(table_identifier.full());
        statement.append("') AND type in (N'U'))\nBEGIN\n    DROP TABLE ");
        statement.append(table_identifier.full());
        statement.append("\nEND\n\nCREATE TABLE ");
        statement.append(table_identifier.full());
        statement.append(" (\n    ");
        let body = join(&columns, ",\n    ");
        statement.append(body.as_str());
        statement.append("\n)\n");
        Ok(TemporaryTable { table_identifier, create_statement: statement })
    }

    /// The statement that creates the table.
    pub fn create_statement(&self) -> (r: &str)
        ensures
            r@ == self.statement_view(),
    {
        self.create_statement.as_str()
    }

    /// What is left to do with the table when the import of its mapper has
    /// ended: the statement that drops it, unless the options keep it.
    pub fn finalize(self, import_options: &ImportOptions) -> (r: Option<String>)
        ensures
            match r {
                Some(s) => !import_options.no_drop && s@ == drop_statement(
                    self.table_view().full(),
                ),
                None => import_options.no_drop,
            },
    {
        if !import_options.no_drop {
            let mut statement = "DROP TABLE ".to_owned();
            statement.append(self.table_identifier.full());
            statement.append("\n");
            Some(statement)
        } else {
            None
        }
    }
}

pub proof fn lemma_staging_schema()
    ensures
        is_normalized_part(staging_schema()),
{
}

impl Table for TemporaryTable {
    open spec fn table_view(&self) -> TableName {
        TemporaryTable::table_view(self)
    }

    fn identifier(&self) -> (r: &TableIdentifier) {
        &self.table_identifier
    }
}

} // verus!
