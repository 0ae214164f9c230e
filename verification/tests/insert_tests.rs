use sql_bulk_import_profile::column_graph::ColumnGraph;
use sql_bulk_import_profile::data_source::{DataSourceRecord, DataSourceRecordIndex};
use sql_bulk_import_profile::identifier::{ColumnIdentifier, Identifier, TableIdentifier};
use sql_bulk_import_profile::import_options::ImportOptions;
use sql_bulk_import_profile::insert_processor::{InsertProcessor, ProcessRecordError};
use sql_bulk_import_profile::metadata::{
    find_metadata, ColumnFlags, ColumnMetadata, FixedLenKind, SqlType, TableMetadata, VarLenKind,
};
use sql_bulk_import_profile::preprocess::PreprocessFunctionLookup;
use sql_bulk_import_profile::sql_value::{coerce, coerce_with, CellValue, DecimalValue};
use sql_bulk_import_profile::table_mapper::table_mapper_raw::{
    LookupColumnRaw, LookupKeyColumnRaw, ParserColumnRaw, ProcessedKeyColumnRaw, StaticColumnRaw,
    TableMapperColumnRaw, TableMapperRaw,
};
use sql_bulk_import_profile::table_mapper::{
    DeleteAction, DeleteMode, DuplicateAction, TableMapper,
};
use sql_bulk_import_profile::temporary_table::TemporaryTable;
use sql_bulk_import_profile::update_processor::update_statement;

fn index(n: u64) -> DataSourceRecordIndex {
    DataSourceRecordIndex { record_number: n, line_start: n + 1, line_end: n + 1 }
}

fn record(fields: &[(&str, &str)]) -> DataSourceRecord {
    let fields: Vec<(String, String)> =
        fields.iter().map(|(k, v)| (k.to_string(), v.to_string())).collect();
    DataSourceRecord::from_iter(&fields, index(1))
}

fn mapper(columns: Vec<TableMapperColumnRaw>) -> TableMapper {
    TableMapper::new(
        TableMapperRaw {
            name: "values".to_string(),
            field_group: "default".to_string(),
            table_identifier: TableIdentifier::parse("Values").unwrap(),
            delete_mode: DeleteMode::Full,
            delete_action: DeleteAction::NoAction,
            duplicate_action: DuplicateAction::Retain,
            preprocess_function: None,
            columns,
            key_columns: Vec::new(),
        },
        PreprocessFunctionLookup::NoRuntime,
    )
    .unwrap()
}

fn parser(column: &str, field: &str) -> TableMapperColumnRaw {
    TableMapperColumnRaw::Parser(ParserColumnRaw {
        column_identifier: column.to_string(),
        map_column: true,
        field_name: field.to_string(),
    })
}

fn typed(columns: &[(&str, SqlType)]) -> Vec<TableMetadata> {
    let table = TableIdentifier::parse("Values").unwrap();
    vec![TableMetadata {
        columns: columns
            .iter()
            .map(|(name, ty)| {
                (
                    ColumnIdentifier::with_table(&table, name).unwrap(),
                    ColumnMetadata {
                        flags: ColumnFlags { nullable: true, identity: false },
                        ty: *ty,
                        sql_name: "x".to_string(),
                    },
                )
            })
            .collect(),
        table,
    }]
}

const INT: SqlType = SqlType::FixedLen(FixedLenKind::Int4);
const TEXT: SqlType = SqlType::VarLenSized { ty: VarLenKind::BigVarChar, len: 20 };
const DECIMAL: SqlType =
    SqlType::VarLenSizedPrecision { ty: VarLenKind::Decimaln, size: 9, precision: 10, scale: 2 };

#[test]
fn cell_that_cannot_be_read_is_missing() {
    let mapper = mapper(vec![parser("Amount", "amount"), parser("Label", "label")]);
    let metadata = typed(&[("Amount", INT), ("Label", TEXT)]);
    let graph = ColumnGraph::new(&mapper, &metadata, &ImportOptions::default()).unwrap();
    let groups = graph.groups();
    let processor = InsertProcessor::new(&groups[0]);
    assert_eq!(processor.column_names(), vec!["[Amount_0]".to_string(), "[Label_1]".into()]);
    let row = processor.process_record(&record(&[("label", "x"), ("amount", "42")])).unwrap();
    assert!(matches!(row[0], CellValue::I32(Some(42))));
    assert!(matches!(&row[1], CellValue::Text(t) if t == "x"));
    let row = processor.process_record(&record(&[("amount", "abc"), ("label", "")])).unwrap();
    assert!(matches!(row[0], CellValue::I32(None)));
    assert!(matches!(&row[1], CellValue::Text(t) if t.is_empty()));
    assert!(row[0].is_missing());
    assert!(!row[1].is_missing());
}

#[test]
fn record_must_hold_the_fields() {
    let mapper = mapper(vec![parser("Amount", "amount"), parser("Label", "label")]);
    let graph = ColumnGraph::new(&mapper, &Vec::new(), &ImportOptions::default()).unwrap();
    let groups = graph.groups();
    let processor = InsertProcessor::new(&groups[0]);
    match processor.process_record(&record(&[("amount", "1")])) {
        Err(ProcessRecordError::RecordMissingField { field, column }) => {
            assert_eq!(field, "label");
            assert_eq!(column.full(), "[dbo].[Values].[Label]");
        }
        other => panic!("expected a missing field but got: {:?}", other),
    }
    match processor.process_record(&record(&[])) {
        Err(ProcessRecordError::RecordMissingField { field, .. }) => assert_eq!(field, "amount"),
        other => panic!("expected a missing field but got: {:?}", other),
    }
}

#[test]
fn unsupported_type_fails_the_record() {
    let mapper = mapper(vec![parser("Day", "day")]);
    let metadata =
        typed(&[("Day", SqlType::VarLenSized { ty: VarLenKind::Daten, len: 3 })]);
    let graph = ColumnGraph::new(&mapper, &metadata, &ImportOptions::default()).unwrap();
    let groups = graph.groups();
    let processor = InsertProcessor::new(&groups[0]);
    match processor.process_record(&record(&[("day", "2024-01-01")])) {
        Err(ProcessRecordError::UnsupportedType { column }) => {
            assert_eq!(column.full(), "[dbo].[Values].[Day]")
        }
        other => panic!("expected an unsupported type but got: {:?}", other),
    }
    let null = typed(&[("Day", SqlType::FixedLen(FixedLenKind::Null))]);
    let graph = ColumnGraph::new(&mapper, &null, &ImportOptions::default()).unwrap();
    let groups = graph.groups();
    let row = InsertProcessor::new(&groups[0]).process_record(&record(&[("day", "x")])).unwrap();
    assert!(matches!(row[0], CellValue::Bit(None)));
}

#[test]
fn only_parser_columns_are_inserted() {
    let mapper = mapper(vec![
        TableMapperColumnRaw::Static(StaticColumnRaw {
            column_identifier: "Kind".to_string(),
            map_column: true,
            value: "A".to_string(),
        }),
        parser("Label", "label"),
    ]);
    let graph = ColumnGraph::new(&mapper, &Vec::new(), &ImportOptions::default()).unwrap();
    let groups = graph.groups();
    assert_eq!(groups[0].len(), 2);
    let processor = InsertProcessor::new(&groups[0]);
    assert_eq!(processor.column_names(), vec!["[Label_1]".to_string()]);
    let row = processor.process_record(&record(&[("label", "x")])).unwrap();
    assert_eq!(row.len(), 1);
}

#[test]
fn integers_are_read_as_their_type_asks() {
    let cell = |ty: SqlType, text: &str| coerce(&ty, text).unwrap();
    let tiny = SqlType::FixedLen(FixedLenKind::Int1);
    assert!(matches!(cell(tiny, "255"), CellValue::U8(Some(255))));
    assert!(matches!(cell(tiny, "+7"), CellValue::U8(Some(7))));
    assert!(matches!(cell(tiny, "007"), CellValue::U8(Some(7))));
    assert!(matches!(cell(tiny, "256"), CellValue::U8(None)));
    assert!(matches!(cell(tiny, "-1"), CellValue::U8(None)));
    assert!(matches!(cell(tiny, "-0"), CellValue::U8(None)));
    assert!(matches!(cell(tiny, ""), CellValue::U8(None)));
    assert!(matches!(cell(tiny, "+"), CellValue::U8(None)));
    assert!(matches!(cell(tiny, " 1"), CellValue::U8(None)));
    let small = SqlType::FixedLen(FixedLenKind::Int2);
    assert!(matches!(cell(small, "-32768"), CellValue::I16(Some(-32768))));
    assert!(matches!(cell(small, "32768"), CellValue::I16(None)));
    assert!(matches!(cell(small, "-"), CellValue::I16(None)));
    assert!(matches!(cell(INT, "-2147483648"), CellValue::I32(Some(i32::MIN))));
    assert!(matches!(cell(INT, "2147483647"), CellValue::I32(Some(i32::MAX))));
    assert!(matches!(cell(INT, "2147483648"), CellValue::I32(None)));
    assert!(matches!(cell(INT, "-0"), CellValue::I32(Some(0))));
    assert!(matches!(cell(INT, "1e3"), CellValue::I32(None)));
    assert!(matches!(cell(INT, "١٢"), CellValue::I32(None)));
    let big = SqlType::FixedLen(FixedLenKind::Int8);
    assert!(matches!(cell(big, "9223372036854775807"), CellValue::I64(Some(i64::MAX))));
    assert!(matches!(cell(big, "-9223372036854775809"), CellValue::I64(None)));
    let bit = SqlType::FixedLen(FixedLenKind::Bit);
    assert!(matches!(cell(bit, "true"), CellValue::Bit(Some(true))));
    assert!(matches!(cell(bit, "false"), CellValue::Bit(Some(false))));
    assert!(matches!(cell(bit, "1"), CellValue::Bit(None)));
    assert!(matches!(cell(bit, "True"), CellValue::Bit(None)));
}

#[test]
fn integers_are_read_as_the_language_reads_them() {
    let texts = [
        "", "+", "-", "0", "-0", "+0", "00", "007", "-007", "+-1", "--1", "++1", "1+", "1-", " 1",
        "1 ", "1_000", "1e3", "0x10", "１２", "٣", "12a", "a12", "1.0", "127", "128", "255", "256",
        "-128", "-129", "32767", "32768", "-32768", "-32769", "2147483647", "2147483648",
        "-2147483648", "-2147483649", "9223372036854775807", "9223372036854775808",
        "-9223372036854775808", "-9223372036854775809", "18446744073709551616",
        "340282366920938463463374607431768211456", "-340282366920938463463374607431768211456",
        "000000000000000000000000000000000000000000000000000000000000042",
        "-00000000000000000000000000000000000000000000009223372036854775808",
        "99999999999999999999999999999999999999999999999999999999999999999999999999999",
    ];
    for text in texts {
        match coerce(&SqlType::FixedLen(FixedLenKind::Int1), text).unwrap() {
            CellValue::U8(v) => assert_eq!(v, text.parse::<u8>().ok(), "u8 of {:?}", text),
            other => panic!("expected a tiny integer but got: {:?}", other),
        }
        match coerce(&SqlType::FixedLen(FixedLenKind::Int2), text).unwrap() {
            CellValue::I16(v) => assert_eq!(v, text.parse::<i16>().ok(), "i16 of {:?}", text),
            other => panic!("expected a small integer but got: {:?}", other),
        }
        match coerce(&SqlType::FixedLen(FixedLenKind::Int4), text).unwrap() {
            CellValue::I32(v) => assert_eq!(v, text.parse::<i32>().ok(), "i32 of {:?}", text),
            other => panic!("expected an integer but got: {:?}", other),
        }
        match coerce(&SqlType::FixedLen(FixedLenKind::Int8), text).unwrap() {
            CellValue::I64(v) => assert_eq!(v, text.parse::<i64>().ok(), "i64 of {:?}", text),
            other => panic!("expected a big integer but got: {:?}", other),
        }
    }
}

#[test]
fn texts_decimals_and_floats() {
    let cell = |ty: SqlType, text: &str| coerce(&ty, text).unwrap();
    let wide = SqlType::VarLenSized { ty: VarLenKind::NVarchar, len: 10 };
    assert!(matches!(cell(wide, "żółw"), CellValue::Text(t) if t == "żółw"));
    assert!(matches!(
        cell(DECIMAL, "-12.340"),
        CellValue::Numeric(Some(DecimalValue { mantissa: -12340, scale: 3 }))
    ));
    assert!(matches!(
        cell(DECIMAL, "7"),
        CellValue::Numeric(Some(DecimalValue { mantissa: 7, scale: 0 }))
    ));
    assert!(matches!(cell(DECIMAL, "seven"), CellValue::Numeric(None)));
    let money = SqlType::VarLenSizedPrecision {
        ty: VarLenKind::Money,
        size: 8,
        precision: 19,
        scale: 4,
    };
    assert!(matches!(
        cell(money, "0.5"),
        CellValue::Numeric(Some(DecimalValue { mantissa: 5, scale: 1 }))
    ));
    let numeric = SqlType::VarLenSizedPrecision {
        ty: VarLenKind::Numericn,
        size: 8,
        precision: 19,
        scale: 4,
    };
    assert!(matches!(cell(numeric, ""), CellValue::Numeric(None)));
    let real = SqlType::FixedLen(FixedLenKind::Float4);
    assert!(matches!(cell(real, "1.5"), CellValue::Float4(t) if t == "1.5"));
    let double = SqlType::FixedLen(FixedLenKind::Float8);
    assert!(matches!(cell(double, "x"), CellValue::Float8(t) if t == "x"));
    assert!(coerce(&SqlType::FixedLen(FixedLenKind::Datetime), "x").is_none());
    assert!(coerce(&SqlType::FixedLen(FixedLenKind::Money), "1").is_none());
    assert!(coerce(&SqlType::FixedLen(FixedLenKind::Null), "1").is_none());
    assert!(coerce(&SqlType::VarLenSized { ty: VarLenKind::NChar, len: 1 }, "x").is_none());
    assert!(coerce(
        &SqlType::VarLenSizedPrecision { ty: VarLenKind::Intn, size: 4, precision: 0, scale: 0 },
        "1"
    )
    .is_none());
    assert!(coerce(&SqlType::Xml { size: 0 }, "<a/>").is_none());
    assert!(coerce(&SqlType::Udt, "x").is_none());
    assert!(matches!(
        coerce_with(&DECIMAL, "ignored", Some((15, 1))),
        Some(CellValue::Numeric(Some(DecimalValue { mantissa: 15, scale: 1 })))
    ));
    assert!(matches!(coerce_with(&INT, "12", Some((15, 1))), Some(CellValue::I32(Some(12)))));
}

#[test]
fn metadata_is_found_by_table_and_column() {
    let tables = typed(&[("Amount", INT), ("Label", TEXT), ("Amount", DECIMAL)]);
    let amount = ColumnIdentifier::parse("Values.Amount").unwrap();
    assert_eq!(find_metadata(&tables, &amount).ty, INT);
    let other = ColumnIdentifier::parse("Other.Amount").unwrap();
    assert_eq!(find_metadata(&tables, &other).sql_name, "nvarchar(max)");
    let missing = ColumnIdentifier::parse("Values.Missing").unwrap();
    assert!(find_metadata(&tables, &missing).flags.nullable);
    assert_eq!(ColumnMetadata::unknown().sql_name, "nvarchar(max)");
}

fn lookup_on_static(value: &str) -> TableMapper {
    mapper(vec![
        TableMapperColumnRaw::Static(StaticColumnRaw {
            column_identifier: "Kind".to_string(),
            map_column: false,
            value: value.to_string(),
        }),
        parser("Code", "code"),
        TableMapperColumnRaw::Lookup(LookupColumnRaw {
            column_identifier: "KindID".to_string(),
            map_column: true,
            table_identifier: TableIdentifier::parse("Kind").unwrap(),
            output_column_identifier: "ID".to_string(),
            key_columns: vec![
                LookupKeyColumnRaw::ProcessedKeyColumn(ProcessedKeyColumnRaw {
                    key_column_identifier: "Name".to_string(),
                    column_identifier: "Kind".to_string(),
                }),
                LookupKeyColumnRaw::ProcessedKeyColumn(ProcessedKeyColumnRaw {
                    key_column_identifier: "Code".to_string(),
                    column_identifier: "Code".to_string(),
                }),
            ],
        }),
    ])
}

#[test]
fn key_on_a_static_column_stays_with_the_key() {
    let mapper = lookup_on_static("7");
    let graph = ColumnGraph::new(&mapper, &Vec::new(), &ImportOptions::default()).unwrap();
    let target = TableIdentifier::parse("Values").unwrap();
    let staging = TemporaryTable::new(&target, &graph).unwrap();
    let groups = graph.groups();
    let last = groups.len() - 1;
    let statement = update_statement(&staging, &groups[last], &graph).unwrap().unwrap();
    assert!(statement.parameters.is_empty());
    assert!(statement.text.contains(
        "WHERE\n        l_inner.[Code] = t.[Code_1] AND l_inner.[Name] = t.[Name_3]\n        \n        \n) l_KindID_2\n"
    ));
}
