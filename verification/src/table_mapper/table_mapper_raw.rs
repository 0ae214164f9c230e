use crate::identifier::TableIdentifier;
use crate::table_mapper::{DeleteAction, DeleteMode, DuplicateAction};
use vstd::prelude::*;

verus! {

/// A table mapper as the profile spells it: identifiers of columns are still
/// plain text, to be resolved against the mapper's table.
#[derive(Debug)]
pub struct TableMapperRaw {
    pub name: String,
    pub field_group: String,
    pub table_identifier: TableIdentifier,
    pub delete_mode: DeleteMode,
    pub delete_action: DeleteAction,
    pub duplicate_action: DuplicateAction,
    pub preprocess_function: Option<String>,
    pub columns: Vec<TableMapperColumnRaw>,
    pub key_columns: Vec<String>,
}

#[derive(Debug)]
pub enum TableMapperColumnRaw {
    Static(StaticColumnRaw),
    Parser(ParserColumnRaw),
    Lookup(LookupColumnRaw),
}

#[derive(Debug)]
pub struct StaticColumnRaw {
    pub column_identifier: String,
    pub map_column: bool,
    pub value: String,
}

#[derive(Debug)]
pub struct ParserColumnRaw {
    pub column_identifier: String,
    pub map_column: bool,
    pub field_name: String,
}

#[derive(Debug)]
pub struct LookupColumnRaw {
    pub column_identifier: String,
    pub map_column: bool,
    pub table_identifier: TableIdentifier,
    pub output_column_identifier: String,
    pub key_columns: Vec<LookupKeyColumnRaw>,
}

#[derive(Debug)]
pub enum LookupKeyColumnRaw {
    ParserKeyColumn(ParserKeyColumnRaw),
    ProcessedKeyColumn(ProcessedKeyColumnRaw),
}

#[derive(Debug)]
pub struct ParserKeyColumnRaw {
    pub key_column_identifier: String,
    pub field_name: String,
}

#[derive(Debug)]
pub struct ProcessedKeyColumnRaw {
    pub key_column_identifier: String,
    pub column_identifier: String,
}

} // verus!
