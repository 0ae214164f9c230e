use crate::column_graph::{indexed_views, ColumnNode, IndexedColumnNode, IndexedView, NodeView};
use crate::data_source::string_map::value_of;
use crate::data_source::DataSourceRecord;
use crate::identifier::{ColumnIdentifier, ColumnName, Identifier};
use crate::metadata::{FixedLenKind, SqlType};
use crate::sql_value::{coerce, coerced, decimal_of_text, CellValue, CellView};
use crate::table_mapper::{Column, FieldColumn};
use vstd::prelude::*;

verus! {

/// Turns records into rows for the bulk insert: one cell for each parser
/// column of the first group of the graph.
#[derive(Debug)]
pub struct InsertProcessor<'a> {
    target_columns: Vec<IndexedColumnNode<'a>>,
}

/// The bulk insert could not be opened; the message of the server.
#[derive(Debug)]
pub struct CreateInsertProcessorError(pub String);

/// The bulk insert could not be closed; the message of the server.
#[derive(Debug)]
pub struct FinalizeInsertProcessorError(pub String);

/// Why a record gave no row.
#[derive(Debug)]
pub enum ProcessRecordError {
    /// The record lacks the field that the column is filled from.
    RecordMissingField { field: String, column: ColumnIdentifier },
    /// The column has a type that the import does not handle.
    UnsupportedType { column: ColumnIdentifier },
    /// The server refused the row; its message.
    SendRowFailed(String),
}

pub enum RowFailure {
    MissingField { field: Seq<char>, column: ColumnName },
    UnsupportedType { column: ColumnName },
    SendRowFailed(Seq<char>),
}

impl View for ProcessRecordError {
    type V = RowFailure;

    open spec fn view(&self) -> RowFailure {
        match self {
            ProcessRecordError::RecordMissingField { field, column } => RowFailure::MissingField {
                field: field@,
                column: column@,
            },
            ProcessRecordError::UnsupportedType { column } => RowFailure::UnsupportedType {
                column: column@,
            },
            ProcessRecordError::SendRowFailed(m) => RowFailure::SendRowFailed(m@),
        }
    }
}

/// The parser columns among the first `upto` nodes, in their order.
pub open spec fn parser_targets(nodes: Seq<IndexedView>, upto: int) -> Seq<IndexedView>
    decreases upto,
{
    if upto <= 0 {
        Seq::empty()
    } else {
        let before = parser_targets(nodes, upto - 1);
        if nodes[upto - 1].column is Parser {
            before.push(nodes[upto - 1])
        } else {
            before
        }
    }
}

/// The cell of a bulk-inserted row for `text` in a column of the type `ty`:
/// a column of the null type gets no value; any other column gets what the
/// text is read as, and no value where it cannot be read. None for a type
/// that the import does not handle.
pub open spec fn insert_cell(ty: SqlType, text: Seq<char>) -> Option<CellView> {
    if ty == SqlType::FixedLen(FixedLenKind::Null) {
        Some(CellView::Bit(None))
    } else {
        coerced(ty, text, decimal_of_text(text))
    }
}

/// The cell of one target for a record with the given fields.
pub open spec fn target_cell(target: IndexedView, fields: Seq<(Seq<char>, Seq<char>)>) -> Result<
    CellView,
    RowFailure,
> {
    let column = target.column->Parser_column;
    match value_of(fields, column.field, 0) {
        None => Err(RowFailure::MissingField { field: column.field, column: column.column }),
        Some(text) => match insert_cell(target.metadata.ty, text) {
            None => Err(RowFailure::UnsupportedType { column: column.column }),
            Some(cell) => Ok(cell),
        },
    }
}

/// The cells of the first `upto` targets, or what is wrong with the first
/// target that gives none.
pub open spec fn row_cells(
    targets: Seq<IndexedView>,
    fields: Seq<(Seq<char>, Seq<char>)>,
    upto: int,
) -> Result<Seq<CellView>, RowFailure>
    decreases upto,
{
    if upto <= 0 {
        Ok(Seq::empty())
    } else {
        match row_cells(targets, fields, upto - 1) {
            Err(e) => Err(e),
            Ok(cells) => match target_cell(targets[upto - 1], fields) {
                Err(e) => Err(e),
                Ok(cell) => Ok(cells.push(cell)),
            },
        }
    }
}

/// The views of a list of cells.
pub open spec fn cell_views(cells: Seq<CellValue>) -> Seq<CellView> {
    Seq::new(cells.len(), |i: int| cells[i]@)
}

/// The last parts of the staging columns of the targets.
pub open spec fn target_names(targets: Seq<IndexedView>) -> Seq<Seq<char>> {
    Seq::new(targets.len(), |i: int| targets[i].unique_identifier.column)
}

impl<'a> InsertProcessor<'a> {
    /// The columns that the rows fill, in their order.
    pub closed spec fn targets(&self) -> Seq<IndexedView> {
        indexed_views(self.target_columns@)
    }

    #[verifier::type_invariant]
    pub closed spec fn inv(&self) -> bool {
        forall|i: int|
            0 <= i < self.target_columns@.len() ==> (#[trigger] self.target_columns@[i])@.column
                is Parser
    }

    /// A processor for the nodes of the first group of a graph. Its targets
    /// are the parser columns among them.
    pub fn new(columns: &Vec<IndexedColumnNode<'a>>) -> (r: InsertProcessor<'a>)
        ensures
            r.targets() == parser_targets(indexed_views(columns@), columns@.len() as int),
    {
        let ghost views = indexed_views(columns@);
        let mut target_columns: Vec<IndexedColumnNode<'a>> = Vec::new();
        let mut i: usize = 0;
        assert(indexed_views(target_columns@) =~= parser_targets(views, 0));
        while i < columns.len()
            invariant
                i <= columns.len(),
                views == indexed_views(columns@),
                indexed_views(target_columns@) == parser_targets(views, i as int),
                forall|k: int|
                    0 <= k < target_columns@.len() ==> (#[trigger] target_columns@[k])@.column
                        is Parser,
            decreases columns.len() - i,
        {
            let column = columns[i];
            assert(views[i as int] == column@);
            match column.column() {
                ColumnNode::ParserColumn { .. } => {
                    proof {
                        assert(indexed_views(target_columns@.push(column)) =~= indexed_views(
                            target_columns@,
                        ).push(column@));
                    }
                    target_columns.push(column);
                },
                _ => {},
            }
            i += 1;
        }
        InsertProcessor { target_columns }
    }

    /// The names of the staging columns that the rows fill.
    pub fn column_names(&self) -> (r: Vec<String>)
        ensures
            crate::text::text_views(r@) == target_names(self.targets()),
    {
        let mut out: Vec<String> = Vec::new();
        let mut i: usize = 0;
        while i < self.target_columns.len()
            invariant
                i <= self.target_columns.len(),
                out@.len() == i,
                forall|k: int|
                    0 <= k < i ==> (#[trigger] out@[k])@
                        == self.target_columns@[k]@.unique_identifier.column,
            decreases self.target_columns.len() - i,
        {
            out.push(self.target_columns[i].unique_identifier().part().to_owned());
            i += 1;
        }
        assert(crate::text::text_views(out@) =~= target_names(self.targets()));
        out
    }

    /// The row for one record: for each target the field that it is filled
    /// from, read as the type of the staging column asks.
    pub fn process_record(&self, record: &DataSourceRecord) -> (r: Result<
        Vec<CellValue>,
        ProcessRecordError,
    >)
        ensures
            match row_cells(self.targets(), record@.fields, self.targets().len() as int) {
                Ok(cells) => r matches Ok(row) && cell_views(row@) == cells,
                Err(e) => r matches Err(x) && x@ == e,
            },
    {
        proof {
            use_type_invariant(self);
        }
        let ghost targets = self.targets();
        let ghost fields = record@.fields;
        let mut row: Vec<CellValue> = Vec::new();
        let mut i: usize = 0;
        assert(cell_views(row@) =~= Seq::<CellView>::empty());
        while i < self.target_columns.len()
            invariant
                i <= self.target_columns.len(),
                targets == indexed_views(self.target_columns@),
                fields == record@.fields,
                forall|k: int|
                    0 <= k < self.target_columns@.len() ==> (
                    #[trigger] self.target_columns@[k])@.column is Parser,
                row_cells(targets, fields, i as int) == Ok::<Seq<CellView>, RowFailure>(
                    cell_views(row@),
                ),
            decreases self.target_columns.len() - i,
        {
            let target = &self.target_columns[i];
            assert(targets[i as int] == target@);
            let parser = match target.column() {
                ColumnNode::ParserColumn { column, .. } => column,
                _ => {
                    assert(false);
                    vstd::pervasive::unreached()
                },
            };
            let text = match record.field(parser.field_name()) {
                Some(text) => text,
                None => {
                    proof {
                        lemma_row_fails(targets, fields, i as int);
                    }
                    return Err(
                        ProcessRecordError::RecordMissingField {
                            field: parser.field_name().to_owned(),
                            column: Column::identifier(parser).clone(),
                        },
                    );
                },
            };
            let cell = match target.metadata().ty {
                SqlType::FixedLen(FixedLenKind::Null) => Some(CellValue::Bit(None)),
                _ => coerce(&target.metadata().ty, text),
            };
            match cell {
                Some(cell) => {
                    proof {
                        assert(cell_views(row@.push(cell)) =~= cell_views(row@).push(cell@));
                    }
                    row.push(cell);
                },
                None => {
                    proof {
                        lemma_row_fails(targets, fields, i as int);
                    }
                    return Err(
                        ProcessRecordError::UnsupportedType {
                            column: Column::identifier(parser).clone(),
                        },
                    );
                },
            }
            i += 1;
        }
        Ok(row)
    }
}

/// A target that gives no cell fails the whole row.
pub proof fn lemma_row_fails(
    targets: Seq<IndexedView>,
    fields: Seq<(Seq<char>, Seq<char>)>,
    i: int,
)
    requires
        0 <= i < targets.len(),
        row_cells(targets, fields, i + 1) is Err,
    ensures
        row_cells(targets, fields, targets.len() as int) == row_cells(targets, fields, i + 1),
    decreases targets.len() - i,
{
    if i + 1 < targets.len() {
        lemma_row_fails(targets, fields, i + 1);
    }
}

} // verus!
