use sql_bulk_import_profile::identifier::{
    ColumnIdentifier, DatabaseIdentifier, Identifier, ParseIdentifierError, SchemaIdentifier,
    TableIdentifier,
};

#[test]
fn table_with_two_parts_keeps_both() {
    let table = TableIdentifier::parse("sales.Orders").unwrap();
    assert_eq!(table.full(), "[sales].[Orders]");
    assert_eq!(table.schema(), "[sales]");
    assert_eq!(table.part(), "[Orders]");
    assert_eq!(table.part_unescaped(), "Orders");
}

#[test]
fn table_with_one_part_gets_default_schema() {
    let table: TableIdentifier = "Currency".parse().unwrap();
    assert_eq!(table.full(), "[dbo].[Currency]");
    assert_eq!(table.schema(), "[dbo]");
    assert_eq!(table.display(), "[dbo].[Currency]");
}

#[test]
fn bracketed_parts_are_kept() {
    let table = TableIdentifier::parse("[dbo].[Currency]").unwrap();
    assert_eq!(table.full(), "[dbo].[Currency]");
    let again = TableIdentifier::parse(table.full()).unwrap();
    assert!(again == table);
}

#[test]
fn column_parts_and_slices() {
    let column = ColumnIdentifier::parse("dbo.Company.CountryID").unwrap();
    assert_eq!(column.full(), "[dbo].[Company].[CountryID]");
    assert_eq!(column.schema(), "[dbo]");
    assert_eq!(column.table(), "[dbo].[Company]");
    assert_eq!(column.part(), "[CountryID]");
    assert_eq!(column.part_unescaped(), "CountryID");
    assert_eq!(column.display(), "[CountryID]");
    let short = ColumnIdentifier::parse("Company.Code").unwrap();
    assert_eq!(short.full(), "[dbo].[Company].[Code]");
}

#[test]
fn column_reparse_is_idempotent() {
    let column = ColumnIdentifier::parse("Company.Na_me$1").unwrap();
    let again = ColumnIdentifier::parse(column.full()).unwrap();
    assert_eq!(again.full(), column.full());
    assert!(again == column);
}

#[test]
fn unicode_letters_are_part_characters() {
    let table = TableIdentifier::parse("Größe.Straße").unwrap();
    assert_eq!(table.full(), "[Größe].[Straße]");
    assert_eq!(table.schema(), "[Größe]");
    assert_eq!(table.part_unescaped(), "Straße");
}

#[test]
fn invalid_character_is_reported() {
    assert_eq!(
        TableIdentifier::parse("dbo.my table").unwrap_err(),
        ParseIdentifierError::InvalidCharacter(' ')
    );
    assert_eq!(
        SchemaIdentifier::parse("a.b").unwrap_err(),
        ParseIdentifierError::InvalidCharacter('.')
    );
    assert_eq!(
        DatabaseIdentifier::parse("a[b").unwrap_err(),
        ParseIdentifierError::InvalidCharacter('[')
    );
}

#[test]
fn unbalanced_brackets_are_reported() {
    assert_eq!(
        TableIdentifier::parse("[dbo.Currency").unwrap_err(),
        ParseIdentifierError::InvalidBrackets
    );
    assert_eq!(
        TableIdentifier::parse("dbo.Currency]").unwrap_err(),
        ParseIdentifierError::InvalidBrackets
    );
    assert_eq!(SchemaIdentifier::parse("[").unwrap_err(), ParseIdentifierError::InvalidBrackets);
    assert_eq!(SchemaIdentifier::parse("]").unwrap_err(), ParseIdentifierError::InvalidBrackets);
}

#[test]
fn wrong_part_counts_are_reported() {
    assert_eq!(
        ColumnIdentifier::parse("Code").unwrap_err(),
        ParseIdentifierError::TooFewParts
    );
    assert_eq!(
        TableIdentifier::parse("a.b.c").unwrap_err(),
        ParseIdentifierError::TooManyParts(0)
    );
    assert_eq!(
        TableIdentifier::parse("a.b.c.d.e").unwrap_err(),
        ParseIdentifierError::TooManyParts(2)
    );
    assert_eq!(
        ColumnIdentifier::parse("a.b.c.d").unwrap_err(),
        ParseIdentifierError::TooManyParts(0)
    );
}

#[test]
fn first_failure_wins() {
    assert_eq!(
        ColumnIdentifier::parse("a b").unwrap_err(),
        ParseIdentifierError::InvalidCharacter(' ')
    );
    assert_eq!(
        TableIdentifier::parse("a.b!.c").unwrap_err(),
        ParseIdentifierError::InvalidCharacter('!')
    );
    assert_eq!(
        TableIdentifier::parse("a.b.c!").unwrap_err(),
        ParseIdentifierError::TooManyParts(0)
    );
}

#[test]
fn empty_parts_become_empty_brackets() {
    assert_eq!(SchemaIdentifier::parse("").unwrap().full(), "[]");
    assert_eq!(TableIdentifier::parse("").unwrap().full(), "[dbo].[]");
    assert_eq!(SchemaIdentifier::parse("[]").unwrap().part_unescaped(), "");
}

#[test]
fn with_schema_and_with_table_compose() {
    let schema = SchemaIdentifier::parse("import").unwrap();
    let table = TableIdentifier::with_schema(&schema, "Currency").unwrap();
    assert_eq!(table.full(), "[import].[Currency]");
    let column = ColumnIdentifier::with_table(&table, "[Code]").unwrap();
    assert_eq!(column.full(), "[import].[Currency].[Code]");
    assert_eq!(
        ColumnIdentifier::with_table(&table, "Co.de").unwrap_err(),
        ParseIdentifierError::InvalidCharacter('.')
    );
    assert_eq!(TableIdentifier::from_column(&column).full(), "[import].[Currency]");
    assert_eq!(SchemaIdentifier::from_column(&column).full(), "[import]");
    assert_eq!(SchemaIdentifier::from_table(&table).full(), "[import]");
}

#[test]
fn a_part_between_brackets_is_taken_as_it_is() {
    let schema = SchemaIdentifier::parse("[my col]").unwrap();
    assert_eq!(schema.full(), "[my col]");
    assert_eq!(schema.part_unescaped(), "my col");
    let table = TableIdentifier::parse("dbo.[my table]").unwrap();
    assert_eq!(table.full(), "[dbo].[my table]");
    assert_eq!(table.part(), "[my table]");
    let column = ColumnIdentifier::with_table(&table, "[unit price (net)]").unwrap();
    assert_eq!(column.full(), "[dbo].[my table].[unit price (net)]");
    assert_eq!(column.table(), "[dbo].[my table]");
    assert_eq!(column.part_unescaped(), "unit price (net)");
    assert_eq!(DatabaseIdentifier::parse("[a[b]").unwrap().full(), "[a[b]");
    assert_eq!(
        SchemaIdentifier::parse("[my col").unwrap_err(),
        ParseIdentifierError::InvalidCharacter(' ')
    );
    assert_eq!(
        SchemaIdentifier::parse("my col]").unwrap_err(),
        ParseIdentifierError::InvalidCharacter(' ')
    );
}

#[test]
fn a_dot_between_brackets_stays_in_its_part() {
    let table = TableIdentifier::parse("Prices").unwrap();
    let column = ColumnIdentifier::with_table(&table, "[net.total]").unwrap();
    assert_eq!(column.full(), "[dbo].[Prices].[net.total]");
    assert_eq!(column.schema(), "[dbo]");
    assert_eq!(column.table(), "[dbo].[Prices]");
    assert_eq!(column.part(), "[net.total]");
    assert_eq!(TableIdentifier::from_column(&column).part(), "[Prices]");
    let schema = SchemaIdentifier::parse("[a.b]").unwrap();
    let inner = TableIdentifier::with_schema(&schema, "c").unwrap();
    assert_eq!(inner.schema(), "[a.b]");
    assert_eq!(inner.part(), "[c]");
    assert_eq!(inner.full(), "[a.b].[c]");
    assert_eq!(
        TableIdentifier::parse("[a.b].c").unwrap_err(),
        ParseIdentifierError::InvalidBrackets
    );
}

#[test]
fn identifiers_are_equal_where_their_parts_are() {
    let wide = SchemaIdentifier::parse("[a].[b]").unwrap();
    let narrow = SchemaIdentifier::parse("a").unwrap();
    let one = TableIdentifier::with_schema(&wide, "c").unwrap();
    let other = TableIdentifier::with_schema(&narrow, "[b].[c]").unwrap();
    assert_eq!(one.full(), other.full());
    assert_eq!(one.schema(), "[a].[b]");
    assert_eq!(other.schema(), "[a]");
    assert!(one != other);
    assert!(one == one.clone());
    assert!(TableIdentifier::parse("a.b").unwrap() == TableIdentifier::parse("[a].[b]").unwrap());
}
