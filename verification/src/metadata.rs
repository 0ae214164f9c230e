use crate::identifier::{ColumnIdentifier, ColumnName, TableIdentifier, TableName};
use vstd::prelude::*;

verus! {

/// The types whose size the type itself fixes.
#[derive(Debug, Clone, Copy, PartialEq, Eq, Structural)]
pub enum FixedLenKind {
    Null,
    Int1,
    Bit,
    Int2,
    Int4,
    Datetime4,
    Float4,
    Money,
    Datetime,
    Float8,
    Money4,
    Int8,
}

/// The types that come with a length.
#[derive(Debug, Clone, Copy, PartialEq, Eq, Structural)]
pub enum VarLenKind {
    Guid,
    Intn,
    Bitn,
    Decimaln,
    Numericn,
    Floatn,
    Money,
    Datetimen,
    Daten,
    Timen,
    Datetime2,
    DatetimeOffsetn,
    BigVarBin,
    BigVarChar,
    BigBinary,
    BigChar,
    NVarchar,
    NChar,
    Xml,
    Udt,
    Text,
    Image,
    NText,
    SSVariant,
}

/// The type of a column as the server describes it.
#[derive(Debug, Clone, Copy, PartialEq, Eq, Structural)]
pub enum SqlType {
    FixedLen(FixedLenKind),
    VarLenSized { ty: VarLenKind, len: usize },
    VarLenSizedPrecision { ty: VarLenKind, size: usize, precision: u8, scale: u8 },
    Xml { size: usize },
    Udt,
}

/// The settings of a column that the import looks at.
#[derive(Debug, Clone, Copy, PartialEq, Eq, Structural)]
pub struct ColumnFlags {
    pub nullable: bool,
    pub identity: bool,
}

/// What the server says of one column: its flags, its type, and how the type
/// is spelled in a statement.
#[derive(Debug)]
pub struct ColumnMetadata {
    pub flags: ColumnFlags,
    pub ty: SqlType,
    pub sql_name: String,
}

pub struct ColumnMetadataView {
    pub flags: ColumnFlags,
    pub ty: SqlType,
    pub sql_name: Seq<char>,
}

impl View for ColumnMetadata {
    type V = ColumnMetadataView;

    open spec fn view(&self) -> ColumnMetadataView {
        ColumnMetadataView { flags: self.flags, ty: self.ty, sql_name: self.sql_name@ }
    }
}

impl Clone for ColumnMetadata {
    fn clone(&self) -> (r: Self)
        ensures
            r@ == self@,
    {
        ColumnMetadata { flags: self.flags, ty: self.ty, sql_name: self.sql_name.clone() }
    }
}

/// The spelling of the type of a column that the server does not know.
pub open spec fn default_sql_name() -> Seq<char> {
    "nvarchar(max)"@
}

/// What is assumed of a column that the server does not know: any text, and
/// it may be missing.
pub open spec fn default_metadata() -> ColumnMetadataView {
    ColumnMetadataView {
        flags: ColumnFlags { nullable: true, identity: false },
        ty: SqlType::VarLenSized { ty: VarLenKind::NVarchar, len: usize::MAX },
        sql_name: default_sql_name(),
    }
}

impl ColumnMetadata {
    /// The metadata of a column that the server does not know.
    pub fn unknown() -> (r: ColumnMetadata)
        ensures
            r@ == default_metadata(),
    {
        ColumnMetadata {
            flags: ColumnFlags { nullable: true, identity: false },
            ty: SqlType::VarLenSized { ty: VarLenKind::NVarchar, len: usize::MAX },
            sql_name: "nvarchar(max)".to_owned(),
        }
    }
}

/// The columns of one table with what the server says of each.
#[derive(Debug)]
pub struct TableMetadata {
    pub table: TableIdentifier,
    pub columns: Vec<(ColumnIdentifier, ColumnMetadata)>,
}

pub struct TableMetadataView {
    pub table: TableName,
    pub columns: Seq<(ColumnName, ColumnMetadataView)>,
}

impl View for TableMetadata {
    type V = TableMetadataView;

    open spec fn view(&self) -> TableMetadataView {
        TableMetadataView {
            table: self.table@,
            columns: Seq::new(
                self.columns@.len(),
                |i: int| (self.columns@[i].0@, self.columns@[i].1@),
            ),
        }
    }
}

/// The views of a list of tables.
pub open spec fn table_views(tables: Seq<TableMetadata>) -> Seq<TableMetadataView> {
    Seq::new(tables.len(), |i: int| tables[i]@)
}

/// `i` is the first entry for the column `column`.
pub open spec fn is_first_column(
    columns: Seq<(ColumnName, ColumnMetadataView)>,
    column: ColumnName,
    i: int,
) -> bool {
    &&& 0 <= i < columns.len()
    &&& columns[i].0 == column
    &&& forall|j: int| 0 <= j < i ==> columns[j].0 != column
}

/// `i` is the first entry for the table `table`.
pub open spec fn is_first_table(tables: Seq<TableMetadataView>, table: TableName, i: int) -> bool {
    &&& 0 <= i < tables.len()
    &&& tables[i].table == table
    &&& forall|j: int| 0 <= j < i ==> tables[j].table != table
}

/// What is known of `column` within one table: its first entry, else the
/// default.
pub open spec fn column_metadata_in(
    columns: Seq<(ColumnName, ColumnMetadataView)>,
    column: ColumnName,
) -> ColumnMetadataView {
    if exists|i: int| is_first_column(columns, column, i) {
        columns[choose|i: int| is_first_column(columns, column, i)].1
    } else {
        default_metadata()
    }
}

/// What is known of `column`: looked up in the first entry for its table;
/// the default where the table or the column is not there.
pub open spec fn metadata_for(tables: Seq<TableMetadataView>, column: ColumnName) -> ColumnMetadataView {
    if exists|i: int| is_first_table(tables, column.table_name(), i) {
        column_metadata_in(
            tables[choose|i: int| is_first_table(tables, column.table_name(), i)].columns,
            column,
        )
    } else {
        default_metadata()
    }
}

/// Looks up what the server says of `column`.
pub fn find_metadata(tables: &Vec<TableMetadata>, column: &ColumnIdentifier) -> (r: ColumnMetadata)
    ensures
        r@ == metadata_for(table_views(tables@), column@),
{
    let table = TableIdentifier::from_column(column);
    let ghost views = table_views(tables@);
    let mut t: usize = 0;
    while t < tables.len()
        invariant
            t <= tables.len(),
            views == table_views(tables@),
            table@ == column@.table_name(),
            forall|j: int| 0 <= j < t ==> views[j].table != table@,
        decreases tables.len() - t,
    {
        if tables[t].table == table {
            proof {
                assert(is_first_table(views, table@, t as int));
                let k = choose|k: int| is_first_table(views, table@, k);
                assert(k == t) by {
                    if k < t {
                        assert(views[k].table != table@);
                    } else if t < k {
                        assert(views[t as int].table != table@);
                    }
                }
            }
            let columns = &tables[t].columns;
            let ghost cviews = views[t as int].columns;
            let ghost wanted = metadata_for(views, column@);
            assert(wanted == column_metadata_in(cviews, column@));
            let mut c: usize = 0;
            while c < columns.len()
                invariant
                    c <= columns.len(),
                    wanted == column_metadata_in(cviews, column@),
                    wanted == metadata_for(table_views(tables@), column@),
                    cviews.len() == columns@.len(),
                    forall|j: int| 0 <= j < cviews.len() ==> cviews[j] == (#[trigger] columns@[j].0@, columns@[j].1@),
                    forall|j: int| 0 <= j < c ==> cviews[j].0 != column@,
                decreases columns.len() - c,
            {
                if columns[c].0 == *column {
                    proof {
                        assert(is_first_column(cviews, column@, c as int));
                        let k = choose|k: int| is_first_column(cviews, column@, k);
                        assert(k == c) by {
                            if k < c {
                                assert(cviews[k].0 != column@);
                            } else if c < k {
                                assert(cviews[c as int].0 != column@);
                            }
                        }
                    }
                    return columns[c].1.clone();
                }
                c += 1;
            }
            return ColumnMetadata::unknown();
        }
        t += 1;
    }
    ColumnMetadata::unknown()
}

} // verus!
