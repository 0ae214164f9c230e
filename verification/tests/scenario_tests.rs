use sql_bulk_import_profile::column_graph::ColumnGraph;
use sql_bulk_import_profile::data_source::DataSourceRecord;
use sql_bulk_import_profile::delimited_data_source::delimited_data_source_stream::{
    DelimitedHeaderReader, DelimitedStep, HeaderStep,
};
use sql_bulk_import_profile::identifier::{ColumnIdentifier, TableIdentifier};
use sql_bulk_import_profile::import_executor::{MapperRun, RunAction};
use sql_bulk_import_profile::import_options::ImportOptions;
use sql_bulk_import_profile::import_profile::DelimitedReaderConfig;
use sql_bulk_import_profile::insert_processor::InsertProcessor;
use sql_bulk_import_profile::merge_processor::merge_statement;
use sql_bulk_import_profile::metadata::{
    ColumnFlags, ColumnMetadata, FixedLenKind, SqlType, TableMetadata, VarLenKind,
};
use sql_bulk_import_profile::preprocess::{
    preprocess, PreprocessFunctionLookup, PreprocessStep, PreprocessTransform,
};
use sql_bulk_import_profile::sql_value::CellValue;
use sql_bulk_import_profile::table_mapper::table_mapper_raw::{
    ParserColumnRaw, TableMapperColumnRaw, TableMapperRaw,
};
use sql_bulk_import_profile::table_mapper::{
    DeleteAction, DeleteMode, DuplicateAction, Table, TableMapper,
};
use sql_bulk_import_profile::temporary_table::TemporaryTable;
use sql_bulk_import_profile::update_processor::update_statement;

struct Uppercase;

impl PreprocessTransform for Uppercase {
    fn transform(&self, record: DataSourceRecord) -> Result<Option<DataSourceRecord>, String> {
        let fields: Vec<(String, String)> = record
            .fields()
            .iter()
            .map(|(k, v)| (k.to_string(), v.to_uppercase()))
            .collect();
        Ok(Some(DataSourceRecord::from_iter(&fields, record.index())))
    }
}

fn records(data: &[u8]) -> Vec<DataSourceRecord> {
    let mut header = DelimitedHeaderReader::new(DelimitedReaderConfig::Csv).unwrap();
    let mut at = 0;
    let mut source = loop {
        let (consumed, step) = header.feed(&data[at..]);
        at += consumed;
        match step {
            HeaderStep::More(next) => header = next,
            HeaderStep::Done(source) => break source,
            HeaderStep::Failed(e) => panic!("no header: {:?}", e),
        }
    };
    let mut all = Vec::new();
    loop {
        let (next, consumed, step) = source.feed(&data[at..]);
        at += consumed;
        source = next;
        match step {
            DelimitedStep::More => {}
            DelimitedStep::Record(record) => all.push(record),
            DelimitedStep::Failed(e) => panic!("no record: {:?}", e),
            DelimitedStep::End => return all,
        }
    }
}

fn text(cell: &CellValue) -> &str {
    match cell {
        CellValue::Text(t) => t,
        other => panic!("expected a text but got: {:?}", other),
    }
}

#[test]
fn currencies_are_read_preprocessed_and_merged() {
    let mapper = TableMapper::new(
        TableMapperRaw {
            name: "currencies".to_string(),
            field_group: "default".to_string(),
            table_identifier: TableIdentifier::parse("Currency").unwrap(),
            delete_mode: DeleteMode::Partial,
            delete_action: DeleteAction::NoAction,
            duplicate_action: DuplicateAction::NoCheck,
            preprocess_function: Some("uppercase".to_string()),
            columns: vec![
                TableMapperColumnRaw::Parser(ParserColumnRaw {
                    column_identifier: "Code".to_string(),
                    map_column: true,
                    field_name: "Code".to_string(),
                }),
                TableMapperColumnRaw::Parser(ParserColumnRaw {
                    column_identifier: "Name".to_string(),
                    map_column: true,
                    field_name: "Name".to_string(),
                }),
            ],
            key_columns: vec!["Code".to_string()],
        },
        PreprocessFunctionLookup::Found,
    )
    .unwrap();
    assert_eq!(mapper.preprocess_function(), Some("uppercase"));

    let table = TableIdentifier::parse("Currency").unwrap();
    let text_type = SqlType::VarLenSized { ty: VarLenKind::NVarchar, len: 100 };
    let column = |name: &str, ty: SqlType, sql_name: &str, identity: bool| {
        (
            ColumnIdentifier::with_table(&table, name).unwrap(),
            ColumnMetadata {
                flags: ColumnFlags { nullable: false, identity },
                ty,
                sql_name: sql_name.to_string(),
            },
        )
    };
    let metadata = vec![TableMetadata {
        table: table.clone(),
        columns: vec![
            column("ID", SqlType::FixedLen(FixedLenKind::Int4), "int", true),
            column("Code", text_type, "nvarchar(3)", false),
            column("Name", text_type, "nvarchar(50)", false),
        ],
    }];
    let graph = ColumnGraph::new(&mapper, &metadata, &ImportOptions::default()).unwrap();
    let staging = TemporaryTable::new(&table, &graph).unwrap();
    assert!(staging
        .create_statement()
        .ends_with("CREATE TABLE [import].[Currency] (\n    [Code_0] nvarchar(3) NOT NULL,\n    [Name_1] nvarchar(50) NOT NULL\n)\n"));

    let groups = graph.groups();
    assert_eq!(groups.len(), 1);
    let (run, action) = MapperRun::start(groups.len(), &ImportOptions::default());
    assert_eq!(action, RunAction::BulkInsert);

    let processor = InsertProcessor::new(&groups[0]);
    let mut rows = Vec::new();
    for record in records(b"Code,Name\nEUR,euro\ngbp,great british pound\n") {
        match preprocess(Some(&Uppercase), record) {
            PreprocessStep::Continue(record) => {
                let row = processor.process_record(&record).unwrap();
                rows.push((text(&row[0]).to_string(), text(&row[1]).to_string()));
            }
            other => panic!("expected a record but got: {:?}", other),
        }
    }
    assert_eq!(
        rows,
        vec![
            ("EUR".to_string(), "EURO".to_string()),
            ("GBP".to_string(), "GREAT BRITISH POUND".to_string()),
        ]
    );

    let (run, action) = run.next(Ok(()));
    assert_eq!(action, RunAction::Merge);
    assert!(update_statement(&staging, &groups[0], &graph).unwrap().is_none());
    let statement = merge_statement(
        mapper.identifier(),
        staging.identifier(),
        mapper.key_columns(),
        &graph.target_columns(),
    )
    .unwrap();
    assert_eq!(
        statement,
        "MERGE INTO [dbo].[Currency] AS T\nUSING [import].[Currency] AS S\nON\n    \
T.[Code] = S.[Code_0]\nWHEN MATCHED THEN\n    UPDATE SET\n        T.[Name] = S.[Name_1]\n\
WHEN NOT MATCHED BY TARGET THEN\n    INSERT ([Code], [Name])\n    VALUES ([Code_0], [Name_1]);\n"
    );
    let (run, action) = run.next(Ok(()));
    assert_eq!(action, RunAction::DropStaging);
    assert_eq!(
        staging.finalize(&ImportOptions::default()),
        Some("DROP TABLE [import].[Currency]\n".to_string())
    );
    let (run, action) = run.next(Ok(()));
    assert_eq!(action, RunAction::Finish);
    assert!(run.finish().is_ok());
}
