pub mod table_mapper_raw;

use crate::identifier::{
    normalize_part, ColumnIdentifier, ColumnName, ParseIdentifierError, TableIdentifier, TableName,
};
use crate::preprocess::PreprocessFunctionLookup;
use crate::table_mapper::table_mapper_raw::{
    LookupColumnRaw, LookupKeyColumnRaw, TableMapperColumnRaw, TableMapperRaw,
};
use vstd::prelude::*;

verus! {

/// How much of the target table an import replaces.
#[derive(Debug, Clone, Copy, PartialEq, Eq, Structural)]
pub enum DeleteMode {
    Partial,
    Full,
}

/// What happens to a record that is already there.
#[derive(Debug, Clone, Copy, PartialEq, Eq, Structural)]
pub enum DuplicateAction {
    Reject,
    Retain,
    Dump,
    NoCheck,
}

/// What happens to rows that the import no longer holds.
#[derive(Debug, Clone, Copy, PartialEq, Eq, Structural)]
pub enum DeleteAction {
    NoAction,
}

/// A column that receives the same literal value in every row.
#[derive(Debug)]
pub struct StaticColumn {
    column_identifier: ColumnIdentifier,
    map_column: bool,
    value: String,
}

/// A column that receives a field of the record.
#[derive(Debug)]
pub struct ParserColumn {
    column_identifier: ColumnIdentifier,
    map_column: bool,
    field_name: String,
}

/// A column that receives a value found in another table.
#[derive(Debug)]
pub struct LookupColumn {
    column_identifier: ColumnIdentifier,
    map_column: bool,
    table_identifier: TableIdentifier,
    output_column_identifier: ColumnIdentifier,
    key_columns: Vec<LookupKeyColumn>,
}

/// One column of the lookup table that a lookup matches on.
#[derive(Debug)]
pub enum LookupKeyColumn {
    ParserKeyColumn(ParserKeyColumn),
    ProcessedKeyColumn(ProcessedKeyColumn),
}

/// A lookup key matched against a field of the record.
#[derive(Debug)]
pub struct ParserKeyColumn {
    key_column_identifier: ColumnIdentifier,
    field_name: String,
}

/// A lookup key matched against another column of the same mapper.
#[derive(Debug)]
pub struct ProcessedKeyColumn {
    key_column_identifier: ColumnIdentifier,
    column_identifier: ColumnIdentifier,
}

#[derive(Debug)]
pub enum TableMapperColumn {
    Static(StaticColumn),
    Parser(ParserColumn),
    Lookup(LookupColumn),
}

pub struct StaticColumnView {
    pub column: ColumnName,
    pub map: bool,
    pub value: Seq<char>,
}

pub struct ParserColumnView {
    pub column: ColumnName,
    pub map: bool,
    pub field: Seq<char>,
}

pub struct ParserKeyView {
    pub key: ColumnName,
    pub field: Seq<char>,
}

pub struct ProcessedKeyView {
    pub key: ColumnName,
    pub target: ColumnName,
}

pub enum LookupKeyView {
    Parser(ParserKeyView),
    Processed(ProcessedKeyView),
}

pub struct LookupColumnView {
    pub column: ColumnName,
    pub map: bool,
    pub table: TableName,
    pub output: ColumnName,
    pub keys: Seq<LookupKeyView>,
}

pub enum ColumnView {
    Static(StaticColumnView),
    Parser(ParserColumnView),
    Lookup(LookupColumnView),
}

impl ColumnView {
    /// The target column.
    pub open spec fn column(self) -> ColumnName {
        match self {
            ColumnView::Static(c) => c.column,
            ColumnView::Parser(c) => c.column,
            ColumnView::Lookup(c) => c.column,
        }
    }

    /// Whether the profile asks for the column to be written to the target.
    pub open spec fn map(self) -> bool {
        match self {
            ColumnView::Static(c) => c.map,
            ColumnView::Parser(c) => c.map,
            ColumnView::Lookup(c) => c.map,
        }
    }
}

impl LookupKeyView {
    /// The column of the lookup table that the key is matched with.
    pub open spec fn key(self) -> ColumnName {
        match self {
            LookupKeyView::Parser(k) => k.key,
            LookupKeyView::Processed(k) => k.key,
        }
    }
}

/// The views of a list of lookup keys.
pub open spec fn key_views(keys: Seq<LookupKeyColumn>) -> Seq<LookupKeyView> {
    Seq::new(keys.len(), |i: int| keys[i]@)
}

/// The views of a list of columns.
pub open spec fn column_views(columns: Seq<TableMapperColumn>) -> Seq<ColumnView> {
    Seq::new(columns.len(), |i: int| columns[i]@)
}

/// The views of a list of column identifiers.
pub open spec fn name_views(names: Seq<ColumnIdentifier>) -> Seq<ColumnName> {
    Seq::new(names.len(), |i: int| names[i]@)
}

impl View for StaticColumn {
    type V = StaticColumnView;

    closed spec fn view(&self) -> StaticColumnView {
        StaticColumnView {
            column: self.column_identifier@,
            map: self.map_column,
            value: self.value@,
        }
    }
}

impl View for ParserColumn {
    type V = ParserColumnView;

    closed spec fn view(&self) -> ParserColumnView {
        ParserColumnView {
            column: self.column_identifier@,
            map: self.map_column,
            field: self.field_name@,
        }
    }
}

impl View for ParserKeyColumn {
    type V = ParserKeyView;

    closed spec fn view(&self) -> ParserKeyView {
        ParserKeyView { key: self.key_column_identifier@, field: self.field_name@ }
    }
}

impl View for ProcessedKeyColumn {
    type V = ProcessedKeyView;

    closed spec fn view(&self) -> ProcessedKeyView {
        ProcessedKeyView { key: self.key_column_identifier@, target: self.column_identifier@ }
    }
}

impl View for LookupKeyColumn {
    type V = LookupKeyView;

    open spec fn view(&self) -> LookupKeyView {
        match self {
            LookupKeyColumn::ParserKeyColumn(k) => LookupKeyView::Parser(k@),
            LookupKeyColumn::ProcessedKeyColumn(k) => LookupKeyView::Processed(k@),
        }
    }
}

impl View for LookupColumn {
    type V = LookupColumnView;

    closed spec fn view(&self) -> LookupColumnView {
        LookupColumnView {
            column: self.column_identifier@,
            map: self.map_column,
            table: self.table_identifier@,
            output: self.output_column_identifier@,
            keys: key_views(self.key_columns@),
        }
    }
}

impl View for TableMapperColumn {
    type V = ColumnView;

    open spec fn view(&self) -> ColumnView {
        match self {
            TableMapperColumn::Static(c) => ColumnView::Static(c@),
            TableMapperColumn::Parser(c) => ColumnView::Parser(c@),
            TableMapperColumn::Lookup(c) => ColumnView::Lookup(c@),
        }
    }
}

/// Something that belongs to one table.
pub trait Table {
    spec fn table_view(&self) -> TableName;

    fn identifier(&self) -> (r: &TableIdentifier)
        ensures
            r@ == self.table_view(),
    ;
}

/// Something that stands for one column of a table.
pub trait Column {
    spec fn column_view(&self) -> ColumnName;

    spec fn map_view(&self) -> bool;

    fn identifier(&self) -> (r: &ColumnIdentifier)
        ensures
            r@ == self.column_view(),
    ;

    fn map(&self) -> (r: bool)
        ensures
            r == self.map_view(),
    ;
}

/// A column that can be written to the target table.
pub trait MappableColumn: Column {
    fn map(&self) -> bool;
}

/// A column that is filled from a field of the record.
pub trait FieldColumn: Column {
    spec fn field_view(&self) -> Seq<char>;

    fn field_name(&self) -> (r: &str)
        ensures
            r@ == self.field_view(),
    ;
}

impl StaticColumn {
    pub fn new(column_identifier: &ColumnIdentifier, map_column: bool, value: &str) -> (r:
        StaticColumn)
        ensures
            r@ == (StaticColumnView { column: column_identifier@, map: map_column, value: value@ }),
    {
        StaticColumn {
            column_identifier: column_identifier.clone(),
            map_column,
            value: value.to_owned(),
        }
    }

    /// The literal that every row receives.
    pub fn value(&self) -> (r: &str)
        ensures
            r@ == self@.value,
    {
        self.value.as_str()
    }
}

impl ParserColumn {
    pub fn new(column_identifier: &ColumnIdentifier, map_column: bool, field_name: &str) -> (r:
        ParserColumn)
        ensures
            r@ == (ParserColumnView {
                column: column_identifier@,
                map: map_column,
                field: field_name@,
            }),
    {
        ParserColumn {
            column_identifier: column_identifier.clone(),
            map_column,
            field_name: field_name.to_owned(),
        }
    }
}

impl ParserKeyColumn {
    pub fn new(key_column_identifier: &ColumnIdentifier, field_name: &str) -> (r: ParserKeyColumn)
        ensures
            r@ == (ParserKeyView { key: key_column_identifier@, field: field_name@ }),
    {
        ParserKeyColumn {
            key_column_identifier: key_column_identifier.clone(),
            field_name: field_name.to_owned(),
        }
    }
}

impl ProcessedKeyColumn {
    pub fn new(key_column_identifier: &ColumnIdentifier, column_identifier: &ColumnIdentifier) -> (r:
        ProcessedKeyColumn)
        ensures
            r@ == (ProcessedKeyView { key: key_column_identifier@, target: column_identifier@ }),
    {
        ProcessedKeyColumn {
            key_column_identifier: key_column_identifier.clone(),
            column_identifier: column_identifier.clone(),
        }
    }

    /// The column of the mapper whose value the key is matched with.
    pub fn column_identifier(&self) -> (r: &ColumnIdentifier)
        ensures
            r@ == self@.target,
    {
        &self.column_identifier
    }
}

impl LookupColumn {
    pub fn new(
        column_identifier: &ColumnIdentifier,
        map_column: bool,
        table_identifier: &TableIdentifier,
        output_column_identifier: &ColumnIdentifier,
        key_columns: Vec<LookupKeyColumn>,
    ) -> (r: LookupColumn)
        ensures
            r@ == (LookupColumnView {
                column: column_identifier@,
                map: map_column,
                table: table_identifier@,
                output: output_column_identifier@,
                keys: key_views(key_columns@),
            }),
    {
        LookupColumn {
            column_identifier: column_identifier.clone(),
            map_column,
            table_identifier: table_identifier.clone(),
            output_column_identifier: output_column_identifier.clone(),
            key_columns,
        }
    }

    /// The keys of the lookup, in the order of the profile.
    pub fn iter_key_columns(&self) -> (r: &Vec<LookupKeyColumn>)
        ensures
            key_views(r@) == self@.keys,
    {
        &self.key_columns
    }

    /// The column of the lookup table whose value is taken.
    pub fn output_column_identifier(&self) -> (r: &ColumnIdentifier)
        ensures
            r@ == self@.output,
    {
        &self.output_column_identifier
    }
}

impl Table for LookupColumn {
    open spec fn table_view(&self) -> TableName {
        self@.table
    }

    fn identifier(&self) -> (r: &TableIdentifier) {
        &self.table_identifier
    }
}

impl Column for StaticColumn {
    open spec fn column_view(&self) -> ColumnName {
        self@.column
    }

    open spec fn map_view(&self) -> bool {
        self@.map
    }

    fn identifier(&self) -> (r: &ColumnIdentifier) {
        &self.column_identifier
    }

    fn map(&self) -> (r: bool) {
        self.map_column
    }
}

impl Column for ParserColumn {
    open spec fn column_view(&self) -> ColumnName {
        self@.column
    }

    open spec fn map_view(&self) -> bool {
        self@.map
    }

    fn identifier(&self) -> (r: &ColumnIdentifier) {
        &self.column_identifier
    }

    fn map(&self) -> (r: bool) {
        self.map_column
    }
}

impl Column for LookupColumn {
    open spec fn column_view(&self) -> ColumnName {
        self@.column
    }

    open spec fn map_view(&self) -> bool {
        self@.map
    }

    fn identifier(&self) -> (r: &ColumnIdentifier) {
        &self.column_identifier
    }

    fn map(&self) -> (r: bool) {
        self.map_column
    }
}

impl Column for ParserKeyColumn {
    open spec fn column_view(&self) -> ColumnName {
        self@.key
    }

    open spec fn map_view(&self) -> bool {
        false
    }

    fn identifier(&self) -> (r: &ColumnIdentifier) {
        &self.key_column_identifier
    }

    fn map(&self) -> (r: bool) {
        false
    }
}

impl Column for ProcessedKeyColumn {
    open spec fn column_view(&self) -> ColumnName {
        self@.key
    }

    open spec fn map_view(&self) -> bool {
        false
    }

    fn identifier(&self) -> (r: &ColumnIdentifier) {
        &self.key_column_identifier
    }

    fn map(&self) -> (r: bool) {
        false
    }
}

impl Column for TableMapperColumn {
    open spec fn column_view(&self) -> ColumnName {
        self@.column()
    }

    open spec fn map_view(&self) -> bool {
        self@.map()
    }

    fn identifier(&self) -> (r: &ColumnIdentifier) {
        match self {
            TableMapperColumn::Static(c) => Column::identifier(c),
            TableMapperColumn::Parser(c) => Column::identifier(c),
            TableMapperColumn::Lookup(c) => Column::identifier(c),
        }
    }

    fn map(&self) -> (r: bool) {
        match self {
            TableMapperColumn::Static(c) => Column::map(c),
            TableMapperColumn::Parser(c) => Column::map(c),
            TableMapperColumn::Lookup(c) => Column::map(c),
        }
    }
}

impl FieldColumn for ParserColumn {
    open spec fn field_view(&self) -> Seq<char> {
        self@.field
    }

    fn field_name(&self) -> (r: &str) {
        self.field_name.as_str()
    }
}

impl FieldColumn for ParserKeyColumn {
    open spec fn field_view(&self) -> Seq<char> {
        self@.field
    }

    fn field_name(&self) -> (r: &str) {
        self.field_name.as_str()
    }
}

/// A column identifier of the profile that could not be read: its text and
/// what is wrong with it.
#[derive(Debug)]
pub struct ParseTableMapperIdentifierError(pub String, pub ParseIdentifierError);

pub struct IdentifierFailure {
    pub text: Seq<char>,
    pub error: ParseIdentifierError,
}

impl View for ParseTableMapperIdentifierError {
    type V = IdentifierFailure;

    open spec fn view(&self) -> IdentifierFailure {
        IdentifierFailure { text: self.0@, error: self.1 }
    }
}

impl ParseTableMapperIdentifierError {
    /// The message: the text and what is wrong with it.
    pub fn message(&self) -> (r: String)
        ensures
            r@ == "invalid column identifier "@ + self@.text + ": "@
                + crate::identifier::error_text(self@.error),
    {
        let mut out = "invalid column identifier ".to_owned();
        out.append(self.0.as_str());
        out.append(": ");
        out.append(self.1.message().as_str());
        out
    }
}

/// Why a table mapper could not be made from the profile.
#[derive(Debug)]
pub enum CreateTableMapperErrorKind {
    ParseTableMapperIdentifierError(ParseTableMapperIdentifierError),
    /// A preprocess function is named but no script is loaded.
    NoPreprocessScript,
    /// The script holds no function of that name.
    FindPreprocessFunction(String),
    /// The script runtime failed to hand out the function; the second field is
    /// its message.
    CreatePreprocessFunction(String, String),
}

pub enum CreateTableMapperFailure {
    Identifier(IdentifierFailure),
    NoPreprocessScript,
    FindPreprocessFunction(Seq<char>),
    CreatePreprocessFunction(Seq<char>, Seq<char>),
}

impl View for CreateTableMapperErrorKind {
    type V = CreateTableMapperFailure;

    open spec fn view(&self) -> CreateTableMapperFailure {
        match self {
            CreateTableMapperErrorKind::ParseTableMapperIdentifierError(e) => {
                CreateTableMapperFailure::Identifier(e@)
            },
            CreateTableMapperErrorKind::NoPreprocessScript => {
                CreateTableMapperFailure::NoPreprocessScript
            },
            CreateTableMapperErrorKind::FindPreprocessFunction(n) => {
                CreateTableMapperFailure::FindPreprocessFunction(n@)
            },
            CreateTableMapperErrorKind::CreatePreprocessFunction(n, m) => {
                CreateTableMapperFailure::CreatePreprocessFunction(n@, m@)
            },
        }
    }
}

/// The failure to make a table mapper, with the table it was meant for.
#[derive(Debug)]
pub struct CreateTableMapperError {
    table_identifier: TableIdentifier,
    source: CreateTableMapperErrorKind,
}

impl CreateTableMapperError {
    pub closed spec fn table_view(&self) -> TableName {
        self.table_identifier@
    }

    pub closed spec fn source_view(&self) -> CreateTableMapperFailure {
        self.source@
    }

    pub fn new(table_identifier: &TableIdentifier, source: CreateTableMapperErrorKind) -> (r: Self)
        ensures
            r.table_view() == table_identifier@,
            r.source_view() == source@,
    {
        Self { table_identifier: table_identifier.clone(), source }
    }

    pub fn table_identifier(&self) -> (r: &TableIdentifier)
        ensures
            r@ == self.table_view(),
    {
        &self.table_identifier
    }

    pub fn source(&self) -> (r: &CreateTableMapperErrorKind)
        ensures
            r@ == self.source_view(),
    {
        &self.source
    }
}

/// The column named `text` in the table `table`.
pub open spec fn resolve(table: TableName, text: Seq<char>) -> Result<
    ColumnName,
    IdentifierFailure,
> {
    match normalize_part(text) {
        Ok(n) => Ok(ColumnName { schema: table.schema, table: table.table, column: n }),
        Err(e) => Err(IdentifierFailure { text, error: e }),
    }
}

/// One lookup key: the key column lies in the lookup table, the column that a
/// processed key is matched with lies in the mapper's table.
pub open spec fn lookup_key_of(
    mapper_table: TableName,
    lookup_table: TableName,
    raw: LookupKeyColumnRaw,
) -> Result<LookupKeyView, IdentifierFailure> {
    match raw {
        LookupKeyColumnRaw::ParserKeyColumn(p) => match resolve(
            lookup_table,
            p.key_column_identifier@,
        ) {
            Err(e) => Err(e),
            Ok(key) => Ok(LookupKeyView::Parser(ParserKeyView { key, field: p.field_name@ })),
        },
        LookupKeyColumnRaw::ProcessedKeyColumn(p) => match resolve(
            lookup_table,
            p.key_column_identifier@,
        ) {
            Err(e) => Err(e),
            Ok(key) => match resolve(mapper_table, p.column_identifier@) {
                Err(e) => Err(e),
                Ok(target) => Ok(LookupKeyView::Processed(ProcessedKeyView { key, target })),
            },
        },
    }
}

/// The lookup keys in order, or the failure of the first that cannot be read.
pub open spec fn lookup_keys_of(
    mapper_table: TableName,
    lookup_table: TableName,
    raws: Seq<LookupKeyColumnRaw>,
) -> Result<Seq<LookupKeyView>, IdentifierFailure>
    decreases raws.len(),
{
    if raws.len() == 0 {
        Ok(Seq::empty())
    } else {
        match lookup_keys_of(mapper_table, lookup_table, raws.drop_last()) {
            Err(e) => Err(e),
            Ok(keys) => match lookup_key_of(mapper_table, lookup_table, raws.last()) {
                Err(e) => Err(e),
                Ok(key) => Ok(keys.push(key)),
            },
        }
    }
}

/// One column of the mapper. Of a lookup the output column is read first, then
/// the keys, then the target column.
pub open spec fn column_of(table: TableName, raw: TableMapperColumnRaw) -> Result<
    ColumnView,
    IdentifierFailure,
> {
    match raw {
        TableMapperColumnRaw::Static(s) => match resolve(table, s.column_identifier@) {
            Err(e) => Err(e),
            Ok(column) => Ok(
                ColumnView::Static(StaticColumnView { column, map: s.map_column, value: s.value@ }),
            ),
        },
        TableMapperColumnRaw::Parser(p) => match resolve(table, p.column_identifier@) {
            Err(e) => Err(e),
            Ok(column) => Ok(
                ColumnView::Parser(
                    ParserColumnView { column, map: p.map_column, field: p.field_name@ },
                ),
            ),
        },
        TableMapperColumnRaw::Lookup(l) => match resolve(
            l.table_identifier@,
            l.output_column_identifier@,
        ) {
            Err(e) => Err(e),
            Ok(output) => match lookup_keys_of(table, l.table_identifier@, l.key_columns@) {
                Err(e) => Err(e),
                Ok(keys) => match resolve(table, l.column_identifier@) {
                    Err(e) => Err(e),
                    Ok(column) => Ok(
                        ColumnView::Lookup(
                            LookupColumnView {
                                column,
                                map: l.map_column,
                                table: l.table_identifier@,
                                output,
                                keys,
                            },
                        ),
                    ),
                },
            },
        },
    }
}

/// The columns in order, or the failure of the first that cannot be read.
pub open spec fn columns_of(table: TableName, raws: Seq<TableMapperColumnRaw>) -> Result<
    Seq<ColumnView>,
    IdentifierFailure,
>
    decreases raws.len(),
{
    if raws.len() == 0 {
        Ok(Seq::empty())
    } else {
        match columns_of(table, raws.drop_last()) {
            Err(e) => Err(e),
            Ok(columns) => match column_of(table, raws.last()) {
                Err(e) => Err(e),
                Ok(column) => Ok(columns.push(column)),
            },
        }
    }
}

/// The merge keys in order, or the failure of the first that cannot be read.
pub open spec fn key_columns_of(table: TableName, raws: Seq<String>) -> Result<
    Seq<ColumnName>,
    IdentifierFailure,
>
    decreases raws.len(),
{
    if raws.len() == 0 {
        Ok(Seq::empty())
    } else {
        match key_columns_of(table, raws.drop_last()) {
            Err(e) => Err(e),
            Ok(keys) => match resolve(table, raws.last()@) {
                Err(e) => Err(e),
                Ok(key) => Ok(keys.push(key)),
            },
        }
    }
}

/// The function that preprocesses the records of a mapper: none where the
/// profile names none; otherwise the script runtime must have handed it out.
pub open spec fn preprocess_of(name: Option<String>, lookup: PreprocessFunctionLookup) -> Result<
    Option<Seq<char>>,
    CreateTableMapperFailure,
> {
    match name {
        None => Ok(None),
        Some(n) => match lookup {
            PreprocessFunctionLookup::NoRuntime => Err(
                CreateTableMapperFailure::NoPreprocessScript,
            ),
            PreprocessFunctionLookup::Missing => Err(
                CreateTableMapperFailure::FindPreprocessFunction(n@),
            ),
            PreprocessFunctionLookup::Failed(m) => Err(
                CreateTableMapperFailure::CreatePreprocessFunction(n@, m@),
            ),
            PreprocessFunctionLookup::Found => Ok(Some(n@)),
        },
    }
}

pub struct TableMapperView {
    pub name: Seq<char>,
    pub field_group: Seq<char>,
    pub table: TableName,
    pub delete_mode: DeleteMode,
    pub delete_action: DeleteAction,
    pub duplicate_action: DuplicateAction,
    pub preprocess_function: Option<Seq<char>>,
    pub columns: Seq<ColumnView>,
    pub key_columns: Seq<ColumnName>,
}

/// The mapper that a raw mapper stands for: columns first, then merge keys,
/// then the preprocess function; the first failure ends it.
pub open spec fn table_mapper_of(raw: TableMapperRaw, lookup: PreprocessFunctionLookup) -> Result<
    TableMapperView,
    CreateTableMapperFailure,
> {
    match columns_of(raw.table_identifier@, raw.columns@) {
        Err(e) => Err(CreateTableMapperFailure::Identifier(e)),
        Ok(columns) => match key_columns_of(raw.table_identifier@, raw.key_columns@) {
            Err(e) => Err(CreateTableMapperFailure::Identifier(e)),
            Ok(key_columns) => match preprocess_of(raw.preprocess_function, lookup) {
                Err(e) => Err(e),
                Ok(preprocess_function) => Ok(
                    TableMapperView {
                        name: raw.name@,
                        field_group: raw.field_group@,
                        table: raw.table_identifier@,
                        delete_mode: raw.delete_mode,
                        delete_action: raw.delete_action,
                        duplicate_action: raw.duplicate_action,
                        preprocess_function,
                        columns,
                        key_columns,
                    },
                ),
            },
        },
    }
}

/// The unit of work for one target table.
#[derive(Debug)]
pub struct TableMapper {
    name: String,
    field_group: String,
    table_identifier: TableIdentifier,
    delete_mode: DeleteMode,
    delete_action: DeleteAction,
    duplicate_action: DuplicateAction,
    preprocess_function: Option<String>,
    columns: Vec<TableMapperColumn>,
    key_columns: Vec<ColumnIdentifier>,
}

impl View for TableMapper {
    type V = TableMapperView;

    closed spec fn view(&self) -> TableMapperView {
        TableMapperView {
            name: self.name@,
            field_group: self.field_group@,
            table: self.table_identifier@,
            delete_mode: self.delete_mode,
            delete_action: self.delete_action,
            duplicate_action: self.duplicate_action,
            preprocess_function: match self.preprocess_function {
                Some(n) => Some(n@),
                None => None,
            },
            columns: column_views(self.columns@),
            key_columns: name_views(self.key_columns@),
        }
    }
}

fn resolve_column(table: &TableIdentifier, text: &String) -> (r: Result<
    ColumnIdentifier,
    ParseTableMapperIdentifierError,
>)
    ensures
        match resolve(table@, text@) {
            Ok(name) => r matches Ok(c) && c@ == name,
            Err(e) => r matches Err(x) && x@ == e,
        },
{
    match ColumnIdentifier::with_table(table, text.as_str()) {
        Ok(c) => Ok(c),
        Err(e) => Err(ParseTableMapperIdentifierError(text.clone(), e)),
    }
}

fn convert_lookup_key(
    mapper_table: &TableIdentifier,
    lookup_table: &TableIdentifier,
    raw: &LookupKeyColumnRaw,
) -> (r: Result<LookupKeyColumn, ParseTableMapperIdentifierError>)
    ensures
        match lookup_key_of(mapper_table@, lookup_table@, *raw) {
            Ok(key) => r matches Ok(k) && k@ == key,
            Err(e) => r matches Err(x) && x@ == e,
        },
{
    match raw {
        LookupKeyColumnRaw::ParserKeyColumn(p) => {
            let key = resolve_column(lookup_table, &p.key_column_identifier)?;
            Ok(
                LookupKeyColumn::ParserKeyColumn(
                    ParserKeyColumn {
                        key_column_identifier: key,
                        field_name: p.field_name.clone(),
                    },
                ),
            )
        },
        LookupKeyColumnRaw::ProcessedKeyColumn(p) => {
            let key = resolve_column(lookup_table, &p.key_column_identifier)?;
            let target = resolve_column(mapper_table, &p.column_identifier)?;
            Ok(
                LookupKeyColumn::ProcessedKeyColumn(
                    ProcessedKeyColumn { key_column_identifier: key, column_identifier: target },
                ),
            )
        },
    }
}

fn convert_lookup_keys(
    mapper_table: &TableIdentifier,
    lookup_table: &TableIdentifier,
    raws: &Vec<LookupKeyColumnRaw>,
) -> (r: Result<Vec<LookupKeyColumn>, ParseTableMapperIdentifierError>)
    ensures
        match lookup_keys_of(mapper_table@, lookup_table@, raws@) {
            Ok(keys) => r matches Ok(v) && key_views(v@) == keys,
            Err(e) => r matches Err(x) && x@ == e,
        },
{
    let mut out: Vec<LookupKeyColumn> = Vec::new();
    let mut i: usize = 0;
    assert(key_views(out@) =~= Seq::<LookupKeyView>::empty());
    while i < raws.len()
        invariant
            i <= raws.len(),
            lookup_keys_of(mapper_table@, lookup_table@, raws@.take(i as int)) == Ok::<
                Seq<LookupKeyView>,
                IdentifierFailure,
            >(key_views(out@)),
        decreases raws.len() - i,
    {
        proof {
            assert(raws@.take(i + 1).drop_last() == raws@.take(i as int));
        }
        match convert_lookup_key(mapper_table, lookup_table, &raws[i]) {
            Ok(key) => {
                proof {
                    assert(key_views(out@.push(key)) == key_views(out@).push(key@));
                }
                out.push(key);
            },
            Err(e) => {
                proof {
                    lemma_lookup_keys_fail(mapper_table@, lookup_table@, raws@, i as int);
                }
                return Err(e);
            },
        }
        i += 1;
    }
    assert(raws@.take(raws@.len() as int) == raws@);
    Ok(out)
}

/// A failure among the first keys is the failure of the whole list.
pub proof fn lemma_lookup_keys_fail(
    mapper_table: TableName,
    lookup_table: TableName,
    raws: Seq<LookupKeyColumnRaw>,
    i: int,
)
    requires
        0 <= i < raws.len(),
        lookup_keys_of(mapper_table, lookup_table, raws.take(i + 1)) is Err,
    ensures
        lookup_keys_of(mapper_table, lookup_table, raws) == lookup_keys_of(
            mapper_table,
            lookup_table,
            raws.take(i + 1),
        ),
    decreases raws.len(),
{
    if i + 1 == raws.len() {
        assert(raws.take(i + 1) == raws);
    } else {
        assert(raws.drop_last().take(i + 1) == raws.take(i + 1));
        lemma_lookup_keys_fail(mapper_table, lookup_table, raws.drop_last(), i);
    }
}

/// A failure among the first columns is the failure of the whole list.
pub proof fn lemma_columns_fail(table: TableName, raws: Seq<TableMapperColumnRaw>, i: int)
    requires
        0 <= i < raws.len(),
        columns_of(table, raws.take(i + 1)) is Err,
    ensures
        columns_of(table, raws) == columns_of(table, raws.take(i + 1)),
    decreases raws.len(),
{
    if i + 1 == raws.len() {
        assert(raws.take(i + 1) == raws);
    } else {
        assert(raws.drop_last().take(i + 1) == raws.take(i + 1));
        lemma_columns_fail(table, raws.drop_last(), i);
    }
}

/// A failure among the first merge keys is the failure of the whole list.
pub proof fn lemma_key_columns_fail(table: TableName, raws: Seq<String>, i: int)
    requires
        0 <= i < raws.len(),
        key_columns_of(table, raws.take(i + 1)) is Err,
    ensures
        key_columns_of(table, raws) == key_columns_of(table, raws.take(i + 1)),
    decreases raws.len(),
{
    if i + 1 == raws.len() {
        assert(raws.take(i + 1) == raws);
    } else {
        assert(raws.drop_last().take(i + 1) == raws.take(i + 1));
        lemma_key_columns_fail(table, raws.drop_last(), i);
    }
}

fn convert_lookup(table: &TableIdentifier, raw: &LookupColumnRaw) -> (r: Result<
    LookupColumn,
    ParseTableMapperIdentifierError,
>)
    ensures
        match column_of(table@, TableMapperColumnRaw::Lookup(*raw)) {
            Ok(column) => r matches Ok(c) && ColumnView::Lookup(c@) == column,
            Err(e) => r matches Err(x) && x@ == e,
        },
{
    let output = resolve_column(&raw.table_identifier, &raw.output_column_identifier)?;
    let keys = convert_lookup_keys(table, &raw.table_identifier, &raw.key_columns)?;
    let column = resolve_column(table, &raw.column_identifier)?;
    Ok(
        LookupColumn {
            column_identifier: column,
            map_column: raw.map_column,
            table_identifier: raw.table_identifier.clone(),
            output_column_identifier: output,
            key_columns: keys,
        },
    )
}

fn convert_column(table: &TableIdentifier, raw: &TableMapperColumnRaw) -> (r: Result<
    TableMapperColumn,
    ParseTableMapperIdentifierError,
>)
    ensures
        match column_of(table@, *raw) {
            Ok(column) => r matches Ok(c) && c@ == column,
            Err(e) => r matches Err(x) && x@ == e,
        },
{
    match raw {
        TableMapperColumnRaw::Static(s) => {
            let column = resolve_column(table, &s.column_identifier)?;
            Ok(
                TableMapperColumn::Static(
                    StaticColumn {
                        column_identifier: column,
                        map_column: s.map_column,
                        value: s.value.clone(),
                    },
                ),
            )
        },
        TableMapperColumnRaw::Parser(p) => {
            let column = resolve_column(table, &p.column_identifier)?;
            Ok(
                TableMapperColumn::Parser(
                    ParserColumn {
                        column_identifier: column,
                        map_column: p.map_column,
                        field_name: p.field_name.clone(),
                    },
                ),
            )
        },
        TableMapperColumnRaw::Lookup(l) => {
            let lookup = convert_lookup(table, l)?;
            Ok(TableMapperColumn::Lookup(lookup))
        },
    }
}

impl TableMapper {
    /// Makes the mapper that `raw` stands for. `lookup` is what the script
    /// runtime answered when asked for the preprocess function that `raw`
    /// names; it is not looked at where `raw` names none.
    pub fn new(raw: TableMapperRaw, lookup: PreprocessFunctionLookup) -> (r: Result<
        TableMapper,
        CreateTableMapperError,
    >)
        ensures
            match table_mapper_of(raw, lookup) {
                Ok(mapper) => r matches Ok(m) && m@ == mapper,
                Err(e) => r matches Err(x) && x.source_view() == e && x.table_view()
                    == raw.table_identifier@,
            },
    {
        let table = &raw.table_identifier;
        let mut columns: Vec<TableMapperColumn> = Vec::new();
        let mut i: usize = 0;
        assert(column_views(columns@) =~= Seq::<ColumnView>::empty());
        while i < raw.columns.len()
            invariant
                i <= raw.columns.len(),
                table == &raw.table_identifier,
                columns_of(table@, raw.columns@.take(i as int)) == Ok::<
                    Seq<ColumnView>,
                    IdentifierFailure,
                >(column_views(columns@)),
            decreases raw.columns.len() - i,
        {
            proof {
                assert(raw.columns@.take(i + 1).drop_last() == raw.columns@.take(i as int));
            }
            match convert_column(table, &raw.columns[i]) {
                Ok(column) => {
                    proof {
                        assert(column_views(columns@.push(column)) == column_views(columns@).push(
                            column@,
                        ));
                    }
                    columns.push(column);
                },
                Err(e) => {
                    proof {
                        lemma_columns_fail(table@, raw.columns@, i as int);
                    }
                    return Err(
                        CreateTableMapperError::new(
                            table,
                            CreateTableMapperErrorKind::ParseTableMapperIdentifierError(e),
                        ),
                    );
                },
            }
            i += 1;
        }
        assert(raw.columns@.take(raw.columns@.len() as int) == raw.columns@);
        let mut key_columns: Vec<ColumnIdentifier> = Vec::new();
        let mut k: usize = 0;
        assert(name_views(key_columns@) =~= Seq::<ColumnName>::empty());
        while k < raw.key_columns.len()
            invariant
                k <= raw.key_columns.len(),
                table == &raw.table_identifier,
                columns_of(table@, raw.columns@) == Ok::<Seq<ColumnView>, IdentifierFailure>(
                    column_views(columns@),
                ),
                key_columns_of(table@, raw.key_columns@.take(k as int)) == Ok::<
                    Seq<ColumnName>,
                    IdentifierFailure,
                >(name_views(key_columns@)),
            decreases raw.key_columns.len() - k,
        {
            proof {
                assert(raw.key_columns@.take(k + 1).drop_last() == raw.key_columns@.take(k as int));
            }
            match resolve_column(table, &raw.key_columns[k]) {
                Ok(key) => {
                    proof {
                        assert(name_views(key_columns@.push(key)) == name_views(key_columns@).push(
                            key@,
                        ));
                    }
                    key_columns.push(key);
                },
                Err(e) => {
                    proof {
                        lemma_key_columns_fail(table@, raw.key_columns@, k as int);
                    }
                    return Err(
                        CreateTableMapperError::new(
                            table,
                            CreateTableMapperErrorKind::ParseTableMapperIdentifierError(e),
                        ),
                    );
                },
            }
            k += 1;
        }
        assert(raw.key_columns@.take(raw.key_columns@.len() as int) == raw.key_columns@);
        let preprocess_function = match &raw.preprocess_function {
            None => None,
            Some(name) => match lookup {
                PreprocessFunctionLookup::NoRuntime => {
                    return Err(
                        CreateTableMapperError::new(
                            table,
                            CreateTableMapperErrorKind::NoPreprocessScript,
                        ),
                    );
                },
                PreprocessFunctionLookup::Missing => {
                    return Err(
                        CreateTableMapperError::new(
                            table,
                            CreateTableMapperErrorKind::FindPreprocessFunction(name.clone()),
                        ),
                    );
                },
                PreprocessFunctionLookup::Failed(message) => {
                    return Err(
                        CreateTableMapperError::new(
                            table,
                            CreateTableMapperErrorKind::CreatePreprocessFunction(
                                name.clone(),
                                message,
                            ),
                        ),
                    );
                },
                PreprocessFunctionLookup::Found => Some(name.clone()),
            },
        };
        Ok(
            TableMapper {
                name: raw.name.clone(),
                field_group: raw.field_group.clone(),
                table_identifier: raw.table_identifier.clone(),
                delete_mode: raw.delete_mode,
                delete_action: raw.delete_action,
                duplicate_action: raw.duplicate_action,
                preprocess_function,
                columns,
                key_columns,
            },
        )
    }

    pub fn name(&self) -> (r: &str)
        ensures
            r@ == self@.name,
    {
        self.name.as_str()
    }

    /// The name of the field list of the data source that the mapper reads.
    pub fn field_group(&self) -> (r: &str)
        ensures
            r@ == self@.field_group,
    {
        self.field_group.as_str()
    }

    /// The name of the script function that preprocesses each record, if any.
    pub fn preprocess_function(&self) -> (r: Option<&str>)
        ensures
            match self@.preprocess_function {
                Some(n) => r matches Some(s) && s@ == n,
                None => r is None,
            },
    {
        match &self.preprocess_function {
            Some(n) => Some(n.as_str()),
            None => None,
        }
    }

    pub fn columns(&self) -> (r: &Vec<TableMapperColumn>)
        ensures
            column_views(r@) == self@.columns,
    {
        &self.columns
    }

    /// The columns on which the final merge matches rows.
    pub fn key_columns(&self) -> (r: &Vec<ColumnIdentifier>)
        ensures
            name_views(r@) == self@.key_columns,
    {
        &self.key_columns
    }

    pub fn delete_mode(&self) -> (r: DeleteMode)
        ensures
            r == self@.delete_mode,
    {
        self.delete_mode
    }

    pub fn delete_action(&self) -> (r: DeleteAction)
        ensures
            r == self@.delete_action,
    {
        self.delete_action
    }

    pub fn duplicate_action(&self) -> (r: DuplicateAction)
        ensures
            r == self@.duplicate_action,
    {
        self.duplicate_action
    }
}

impl Table for TableMapper {
    open spec fn table_view(&self) -> TableName {
        self@.table
    }

    fn identifier(&self) -> (r: &TableIdentifier) {
        &self.table_identifier
    }
}

impl StaticColumnView {
    /// The column without regard to whether it is written to the target.
    pub open spec fn content(self) -> StaticColumnView {
        StaticColumnView { column: self.column, map: false, value: self.value }
    }
}

impl ParserColumnView {
    /// The column without regard to whether it is written to the target.
    pub open spec fn content(self) -> ParserColumnView {
        ParserColumnView { column: self.column, map: false, field: self.field }
    }
}

impl LookupColumnView {
    /// The column without regard to whether it is written to the target.
    pub open spec fn content(self) -> LookupColumnView {
        LookupColumnView {
            column: self.column,
            map: false,
            table: self.table,
            output: self.output,
            keys: self.keys,
        }
    }
}

impl StaticColumn {
    /// Whether two columns differ at most in being written to the target.
    pub fn same_content(&self, other: &StaticColumn) -> (r: bool)
        ensures
            r == (self@.content() == other@.content()),
    {
        self.column_identifier == other.column_identifier && self.value == other.value
    }

    pub fn duplicate(&self) -> (r: StaticColumn)
        ensures
            r@ == self@,
    {
        StaticColumn {
            column_identifier: self.column_identifier.clone(),
            map_column: self.map_column,
            value: self.value.clone(),
        }
    }
}

impl ParserColumn {
    /// Whether two columns differ at most in being written to the target.
    pub fn same_content(&self, other: &ParserColumn) -> (r: bool)
        ensures
            r == (self@.content() == other@.content()),
    {
        self.column_identifier == other.column_identifier && self.field_name == other.field_name
    }

    pub fn duplicate(&self) -> (r: ParserColumn)
        ensures
            r@ == self@,
    {
        ParserColumn {
            column_identifier: self.column_identifier.clone(),
            map_column: self.map_column,
            field_name: self.field_name.clone(),
        }
    }
}

impl ParserKeyColumn {
    pub fn same(&self, other: &ParserKeyColumn) -> (r: bool)
        ensures
            r == (self@ == other@),
    {
        self.key_column_identifier == other.key_column_identifier && self.field_name
            == other.field_name
    }

    pub fn duplicate(&self) -> (r: ParserKeyColumn)
        ensures
            r@ == self@,
    {
        ParserKeyColumn {
            key_column_identifier: self.key_column_identifier.clone(),
            field_name: self.field_name.clone(),
        }
    }
}

impl ProcessedKeyColumn {
    pub fn same(&self, other: &ProcessedKeyColumn) -> (r: bool)
        ensures
            r == (self@ == other@),
    {
        self.key_column_identifier == other.key_column_identifier && self.column_identifier
            == other.column_identifier
    }

    pub fn duplicate(&self) -> (r: ProcessedKeyColumn)
        ensures
            r@ == self@,
    {
        ProcessedKeyColumn {
            key_column_identifier: self.key_column_identifier.clone(),
            column_identifier: self.column_identifier.clone(),
        }
    }
}

impl LookupKeyColumn {
    pub fn same(&self, other: &LookupKeyColumn) -> (r: bool)
        ensures
            r == (self@ == other@),
    {
        match (self, other) {
            (LookupKeyColumn::ParserKeyColumn(a), LookupKeyColumn::ParserKeyColumn(b)) => a.same(b),
            (
                LookupKeyColumn::ProcessedKeyColumn(a),
                LookupKeyColumn::ProcessedKeyColumn(b),
            ) => a.same(b),
            _ => false,
        }
    }

    pub fn duplicate(&self) -> (r: LookupKeyColumn)
        ensures
            r@ == self@,
    {
        match self {
            LookupKeyColumn::ParserKeyColumn(k) => LookupKeyColumn::ParserKeyColumn(k.duplicate()),
            LookupKeyColumn::ProcessedKeyColumn(k) => LookupKeyColumn::ProcessedKeyColumn(
                k.duplicate(),
            ),
        }
    }
}

impl LookupColumn {
    /// Whether two columns differ at most in being written to the target.
    pub fn same_content(&self, other: &LookupColumn) -> (r: bool)
        ensures
            r == (self@.content() == other@.content()),
    {
        if !(self.column_identifier == other.column_identifier && self.table_identifier
            == other.table_identifier && self.output_column_identifier
            == other.output_column_identifier) {
            return false;
        }
        if self.key_columns.len() != other.key_columns.len() {
            assert(self@.keys.len() != other@.keys.len());
            return false;
        }
        let mut i: usize = 0;
        while i < self.key_columns.len()
            invariant
                i <= self.key_columns.len(),
                self.key_columns.len() == other.key_columns.len(),
                forall|j: int| 0 <= j < i ==> self@.keys[j] == other@.keys[j],
            decreases self.key_columns.len() - i,
        {
            if !self.key_columns[i].same(&other.key_columns[i]) {
                assert(self@.keys[i as int] != other@.keys[i as int]);
                return false;
            }
            i += 1;
        }
        assert(self@.keys =~= other@.keys);
        true
    }

    pub fn duplicate(&self) -> (r: LookupColumn)
        ensures
            r@ == self@,
    {
        let mut keys: Vec<LookupKeyColumn> = Vec::new();
        let mut i: usize = 0;
        while i < self.key_columns.len()
            invariant
                i <= self.key_columns.len(),
                keys@.len() == i,
                forall|j: int| 0 <= j < i ==> keys@[j]@ == self.key_columns@[j]@,
            decreases self.key_columns.len() - i,
        {
            keys.push(self.key_columns[i].duplicate());
            i += 1;
        }
        assert(key_views(keys@) =~= key_views(self.key_columns@));
        LookupColumn {
            column_identifier: self.column_identifier.clone(),
            map_column: self.map_column,
            table_identifier: self.table_identifier.clone(),
            output_column_identifier: self.output_column_identifier.clone(),
            key_columns: keys,
        }
    }
}

} // verus!
