use sql_bulk_import_profile::data_source::string_map::StringMap;
use sql_bulk_import_profile::data_source::{
    DataSourceErrorIndex, DataSourceRecord, DataSourceRecordIndex, ReadRecordError,
};
use sql_bulk_import_profile::identifier::{
    ColumnIdentifier, Identifier, ParseIdentifierError, TableIdentifier,
};
use sql_bulk_import_profile::import_executor::{
    collect_table_names, insert_result, insert_step, ExecuteRecordError, ExecuteTableMapperError,
    ImportExecutorError, ImportExecutorErrorKind, InsertAction, InsertEvent, MapperRun,
    ReadRecordFailure, RunAction,
};
use sql_bulk_import_profile::import_options::{DataSourceDeletion, ImportOptions};
use sql_bulk_import_profile::import_profile::import_profile_raw::{
    ImportProfileRaw, PreprocessLanguage, PreprocessScript,
};
use sql_bulk_import_profile::import_profile::{
    CreateDataSourceErrorKind, CreateImportProfileError, DelimitedReaderConfig, Field,
    ImportProfile, ImportProfileDataSourceConfig,
};
use sql_bulk_import_profile::insert_processor::{
    FinalizeInsertProcessorError, ProcessRecordError,
};
use sql_bulk_import_profile::preprocess::{
    bridge, load_preprocess_runtime, preprocess, LoadPreprocessRuntimeError,
    PreprocessFunctionLookup, PreprocessStep, PreprocessTransform,
};
use sql_bulk_import_profile::table_mapper::table_mapper_raw::{
    LookupColumnRaw, LookupKeyColumnRaw, ParserColumnRaw, ParserKeyColumnRaw,
    ProcessedKeyColumnRaw, StaticColumnRaw, TableMapperColumnRaw, TableMapperRaw,
};
use sql_bulk_import_profile::table_mapper::{
    Column, CreateTableMapperErrorKind, DeleteAction, DeleteMode, DuplicateAction, FieldColumn,
    LookupKeyColumn, ParserColumn, Table, TableMapper, TableMapperColumn,
};

fn raw_mapper(table: &str, columns: Vec<TableMapperColumnRaw>) -> TableMapperRaw {
    TableMapperRaw {
        name: table.to_string(),
        field_group: "default".to_string(),
        table_identifier: TableIdentifier::parse(table).unwrap(),
        delete_mode: DeleteMode::Partial,
        delete_action: DeleteAction::NoAction,
        duplicate_action: DuplicateAction::Reject,
        preprocess_function: None,
        columns,
        key_columns: vec!["Code".to_string()],
    }
}

fn parser(column: &str, field: &str) -> TableMapperColumnRaw {
    TableMapperColumnRaw::Parser(ParserColumnRaw {
        column_identifier: column.to_string(),
        map_column: true,
        field_name: field.to_string(),
    })
}

fn lookup(column: &str, table: &str, keys: Vec<LookupKeyColumnRaw>) -> TableMapperColumnRaw {
    TableMapperColumnRaw::Lookup(LookupColumnRaw {
        column_identifier: column.to_string(),
        map_column: true,
        table_identifier: TableIdentifier::parse(table).unwrap(),
        output_column_identifier: "ID".to_string(),
        key_columns: keys,
    })
}

fn field(name: &str) -> Field {
    Field { name: name.to_string(), formatters: None, required: None }
}

fn config() -> ImportProfileDataSourceConfig {
    ImportProfileDataSourceConfig::DelimitedDataSourceConfig {
        path: "data/companies.csv".to_string(),
        field_groups: vec![
            ("short".to_string(), vec![field("Code")]),
            ("default".to_string(), vec![field("Code"), field("Name")]),
            ("default".to_string(), vec![field("Other")]),
        ],
        reader_config: DelimitedReaderConfig::Csv,
    }
}

fn raw_profile(mappers: Vec<TableMapperRaw>) -> ImportProfileRaw {
    ImportProfileRaw {
        name: "companies".to_string(),
        description: Some("all companies".to_string()),
        data_source_config: config(),
        preprocess_script: None,
        table_mappers: mappers,
    }
}

#[test]
fn table_mapper_resolves_its_columns() {
    let mapper = TableMapper::new(
        raw_mapper(
            "sales.Company",
            vec![
                parser("Code", "code"),
                TableMapperColumnRaw::Static(StaticColumnRaw {
                    column_identifier: "[Kind]".to_string(),
                    map_column: false,
                    value: "A".to_string(),
                }),
                lookup(
                    "CountryID",
                    "geo.Country",
                    vec![
                        LookupKeyColumnRaw::ParserKeyColumn(ParserKeyColumnRaw {
                            key_column_identifier: "Code".to_string(),
                            field_name: "country".to_string(),
                        }),
                        LookupKeyColumnRaw::ProcessedKeyColumn(ProcessedKeyColumnRaw {
                            key_column_identifier: "Kind".to_string(),
                            column_identifier: "Kind".to_string(),
                        }),
                    ],
                ),
            ],
        ),
        PreprocessFunctionLookup::Missing,
    )
    .unwrap();
    assert_eq!(mapper.name(), "sales.Company");
    assert_eq!(mapper.field_group(), "default");
    assert_eq!(mapper.identifier().full(), "[sales].[Company]");
    assert_eq!(mapper.preprocess_function(), None);
    assert_eq!(mapper.delete_mode(), DeleteMode::Partial);
    assert_eq!(mapper.delete_action(), DeleteAction::NoAction);
    assert_eq!(mapper.duplicate_action(), DuplicateAction::Reject);
    assert_eq!(mapper.key_columns()[0].full(), "[sales].[Company].[Code]");
    let columns = mapper.columns();
    assert_eq!(columns.len(), 3);
    assert_eq!(columns[0].identifier().full(), "[sales].[Company].[Code]");
    assert!(columns[0].map());
    assert!(!columns[1].map());
    match &columns[0] {
        TableMapperColumn::Parser(c) => assert_eq!(c.field_name(), "code"),
        other => panic!("expected a parser column but got: {:?}", other),
    }
    match &columns[1] {
        TableMapperColumn::Static(c) => assert_eq!(c.value(), "A"),
        other => panic!("expected a static column but got: {:?}", other),
    }
    match &columns[2] {
        TableMapperColumn::Lookup(c) => {
            assert_eq!(Table::identifier(c).full(), "[geo].[Country]");
            assert_eq!(c.output_column_identifier().full(), "[geo].[Country].[ID]");
            let keys = c.iter_key_columns();
            assert_eq!(keys.len(), 2);
            match &keys[0] {
                LookupKeyColumn::ParserKeyColumn(k) => {
                    assert_eq!(k.identifier().full(), "[geo].[Country].[Code]");
                    assert_eq!(k.field_name(), "country");
                    assert!(!k.map());
                }
                other => panic!("expected a parser key but got: {:?}", other),
            }
            match &keys[1] {
                LookupKeyColumn::ProcessedKeyColumn(k) => {
                    assert_eq!(k.identifier().full(), "[geo].[Country].[Kind]");
                    assert_eq!(k.column_identifier().full(), "[sales].[Company].[Kind]");
                }
                other => panic!("expected a processed key but got: {:?}", other),
            }
        }
        other => panic!("expected a lookup column but got: {:?}", other),
    }
    let column = ColumnIdentifier::parse("a.b").unwrap();
    let made = ParserColumn::new(&column, true, "f");
    assert_eq!(made.identifier().full(), "[dbo].[a].[b]");
    assert!(made.map());
    assert_eq!(made.field_name(), "f");
}

#[test]
fn table_mapper_reports_the_first_bad_identifier() {
    let mut raw = raw_mapper("Company", vec![parser("Code", "code"), parser("Na me", "name")]);
    raw.key_columns = vec!["[Code".to_string()];
    let error = TableMapper::new(raw, PreprocessFunctionLookup::Found).unwrap_err();
    assert_eq!(error.table_identifier().full(), "[dbo].[Company]");
    match error.source() {
        CreateTableMapperErrorKind::ParseTableMapperIdentifierError(e) => {
            assert_eq!(e.0, "Na me");
            assert_eq!(e.1, ParseIdentifierError::InvalidCharacter(' '));
            assert_eq!(e.message(), "invalid column identifier Na me: invalid character ' '");
        }
        other => panic!("expected an identifier error but got: {:?}", other),
    }
    let mut raw = raw_mapper("Company", vec![parser("Code", "code")]);
    raw.key_columns = vec!["Code".to_string(), "[Code".to_string()];
    match TableMapper::new(raw, PreprocessFunctionLookup::Found).unwrap_err().source() {
        CreateTableMapperErrorKind::ParseTableMapperIdentifierError(e) => {
            assert_eq!(e.0, "[Code");
            assert_eq!(e.1, ParseIdentifierError::InvalidBrackets);
        }
        other => panic!("expected an identifier error but got: {:?}", other),
    }
    let raw = raw_mapper(
        "Company",
        vec![TableMapperColumnRaw::Lookup(LookupColumnRaw {
            column_identifier: "bad column".to_string(),
            map_column: true,
            table_identifier: TableIdentifier::parse("Country").unwrap(),
            output_column_identifier: "I.D".to_string(),
            key_columns: vec![LookupKeyColumnRaw::ProcessedKeyColumn(ProcessedKeyColumnRaw {
                key_column_identifier: "Co-de".to_string(),
                column_identifier: "Co de".to_string(),
            })],
        })],
    );
    match TableMapper::new(raw, PreprocessFunctionLookup::Found).unwrap_err().source() {
        CreateTableMapperErrorKind::ParseTableMapperIdentifierError(e) => {
            assert_eq!(e.0, "I.D")
        }
        other => panic!("expected an identifier error but got: {:?}", other),
    }
}

#[test]
fn table_mapper_binds_its_preprocess_function() {
    let with_function = |lookup| {
        let mut raw = raw_mapper("Company", vec![parser("Code", "code")]);
        raw.preprocess_function = Some("upper".to_string());
        TableMapper::new(raw, lookup)
    };
    assert_eq!(
        with_function(PreprocessFunctionLookup::Found).unwrap().preprocess_function(),
        Some("upper")
    );
    assert!(matches!(
        with_function(PreprocessFunctionLookup::NoRuntime).unwrap_err().source(),
        CreateTableMapperErrorKind::NoPreprocessScript
    ));
    assert!(matches!(
        with_function(PreprocessFunctionLookup::Missing).unwrap_err().source(),
        CreateTableMapperErrorKind::FindPreprocessFunction(name) if name == "upper"
    ));
    assert!(matches!(
        with_function(PreprocessFunctionLookup::Failed("boom".to_string())).unwrap_err().source(),
        CreateTableMapperErrorKind::CreatePreprocessFunction(name, message)
            if name == "upper" && message == "boom"
    ));
}

#[test]
fn profile_needs_a_mapper_with_columns() {
    assert!(matches!(
        ImportProfile::new(raw_profile(Vec::new()), &Vec::new()),
        Err(CreateImportProfileError::TableMappersEmpty)
    ));
    assert!(matches!(
        ImportProfile::new(raw_profile(vec![raw_mapper("Company", Vec::new())]), &Vec::new()),
        Err(CreateImportProfileError::TableMappersEmpty)
    ));
    let mut empty = raw_mapper("Other", Vec::new());
    empty.key_columns = Vec::new();
    let profile = ImportProfile::new(
        raw_profile(vec![empty, raw_mapper("Company", vec![parser("Code", "code")])]),
        &Vec::new(),
    )
    .unwrap();
    assert_eq!(profile.name(), "companies");
    assert_eq!(profile.description(), Some("all companies"));
    assert_eq!(profile.table_mappers().len(), 2);
    assert_eq!(profile.table_mappers()[1].name(), "Company");
    assert_eq!(profile.data_source_config().path(), "data/companies.csv");
}

#[test]
fn profile_reports_the_first_mapper_that_fails() {
    let mut first = raw_mapper("Company", vec![parser("Code", "code")]);
    first.preprocess_function = Some("upper".to_string());
    let second = raw_mapper("Country", vec![parser("Co de", "code")]);
    let lookups = vec![PreprocessFunctionLookup::Missing, PreprocessFunctionLookup::Found];
    match ImportProfile::new(raw_profile(vec![first, second]), &lookups) {
        Err(CreateImportProfileError::CreateTableMapperError(e)) => {
            assert_eq!(e.table_identifier().full(), "[dbo].[Company]");
            assert!(matches!(e.source(), CreateTableMapperErrorKind::FindPreprocessFunction(_)));
        }
        other => panic!("expected a mapper error but got: {:?}", other),
    }
    let mut first = raw_mapper("Company", vec![parser("Code", "code")]);
    first.preprocess_function = Some("upper".to_string());
    assert!(matches!(
        ImportProfile::new(raw_profile(vec![first]), &Vec::new()),
        Err(CreateImportProfileError::CreateTableMapperError(e))
            if matches!(e.source(), CreateTableMapperErrorKind::NoPreprocessScript)
    ));
}

#[test]
fn unused_script_is_noticed() {
    let script = PreprocessScript::Inline {
        script: "fn upper(r) { r }".to_string(),
        language: PreprocessLanguage::Rhai,
    };
    let mut raw = raw_profile(vec![raw_mapper("Company", vec![parser("Code", "code")])]);
    assert!(!ImportProfile::has_unused_script(&raw));
    raw.preprocess_script = Some(script);
    assert!(ImportProfile::has_unused_script(&raw));
    raw.table_mappers[0].preprocess_function = Some(String::new());
    assert!(ImportProfile::has_unused_script(&raw));
    raw.table_mappers[0].preprocess_function = Some("upper".to_string());
    assert!(!ImportProfile::has_unused_script(&raw));
}

#[test]
fn field_group_of_the_mapper() {
    let mapper =
        TableMapper::new(raw_mapper("Company", vec![parser("Code", "code")]), PreprocessFunctionLookup::Found)
            .unwrap();
    let config = config();
    let fields = config.fields_for(&mapper).unwrap();
    assert_eq!(fields.len(), 2);
    assert_eq!(fields[1].name(), "Name");
    let mut raw = raw_mapper("Company", vec![parser("Code", "code")]);
    raw.field_group = "long".to_string();
    let mapper = TableMapper::new(raw, PreprocessFunctionLookup::Found).unwrap();
    let error = config.fields_for(&mapper).unwrap_err();
    assert_eq!(error.data_source_path(), "data/companies.csv");
    assert!(matches!(
        error.source(),
        CreateDataSourceErrorKind::UnknownFieldGroup(name) if name == "long"
    ));
    let options = ImportOptions::default();
    assert_eq!(config.source_path(&options), "data/companies.csv");
    let options = ImportOptions { path_override: Some("other.csv".to_string()), ..options };
    assert_eq!(config.source_path(&options), "other.csv");
}

#[test]
fn default_options() {
    let options = ImportOptions::default();
    assert_eq!(options.path_override, None);
    assert_eq!(options.deletion, DataSourceDeletion::Retain);
    assert!(!options.no_merge && !options.no_drop && !options.no_duplicate_optimization);
    assert!(options.is_consistent());
    assert!(!ImportOptions { no_merge: true, ..ImportOptions::default() }.is_consistent());
    assert!(ImportOptions { no_merge: true, no_drop: true, ..ImportOptions::default() }
        .is_consistent());
}

#[test]
fn language_follows_the_extension_of_the_path() {
    let paths = [
        "x.lua/", "x.lua//", "x.lua/.", "x.lua/./", "scripts/x.rhai/./.", "x.lua/..", "./x.luau",
        "/.", "/", ".", "..", "./", ".lua/", "a/.lua", "a/..lua", "..lua", "a.rhai.", "a..rhai",
        "dir.lua/script", "dir.lua/script.rhai", "/x.lua", "x.lua/y/", "a/./b.lua", "a/b.lua/.//",
        "x.lua/.hidden", "x.lua/ ", " .lua", "x. lua", "a/.../b.rhai/", ".../", "a.lua/.../",
    ];
    for path in paths {
        let expected = match std::path::Path::new(path).extension().and_then(|e| e.to_str()) {
            Some("lua") | Some("luau") => Some(PreprocessLanguage::Lua),
            Some("rhai") => Some(PreprocessLanguage::Rhai),
            _ => None,
        };
        let script = PreprocessScript::File { path: path.to_string(), language: None };
        assert_eq!(script.language(), expected, "for the path {:?}", path);
    }
    let script = PreprocessScript::File { path: "x.lua/".to_string(), language: None };
    assert_eq!(script.language(), Some(PreprocessLanguage::Lua));
}

#[test]
fn language_of_a_script() {
    let file = |path: &str, language| PreprocessScript::File { path: path.to_string(), language };
    assert_eq!(file("scripts/a.lua", None).language(), Some(PreprocessLanguage::Lua));
    assert_eq!(file("a.luau", None).language(), Some(PreprocessLanguage::Lua));
    assert_eq!(file("/x.y/a.b.rhai", None).language(), Some(PreprocessLanguage::Rhai));
    assert_eq!(file("a.lua", Some(PreprocessLanguage::Rhai)).language(), Some(PreprocessLanguage::Rhai));
    assert_eq!(file("a.txt", None).language(), None);
    assert_eq!(file("a.LUA", None).language(), None);
    assert_eq!(file("lua", None).language(), None);
    assert_eq!(file(".lua", None).language(), None);
    assert_eq!(file("dir.lua/script", None).language(), None);
    assert_eq!(file("scripts/..", None).language(), None);
    assert_eq!(file("", None).language(), None);
    assert_eq!(file("a.", None).language(), None);
    let inline = PreprocessScript::Inline { script: String::new(), language: PreprocessLanguage::Lua };
    assert_eq!(inline.language(), Some(PreprocessLanguage::Lua));
    assert_eq!(inline.display(), "<inline>");
    assert_eq!(file("a/b.lua", None).display(), "a/b.lua");
    assert_eq!(load_preprocess_runtime(&inline).unwrap(), PreprocessLanguage::Lua);
    assert!(matches!(
        load_preprocess_runtime(&file("a.txt", None)),
        Err(LoadPreprocessRuntimeError::UnknownLanguage)
    ));
}

struct Upper;

impl PreprocessTransform for Upper {
    fn transform(&self, record: DataSourceRecord) -> Result<Option<DataSourceRecord>, String> {
        match record.field("Name") {
            Some("drop") => Ok(None),
            Some("fail") => Err("no such name".to_string()),
            _ => {
                let fields: Vec<(String, String)> = record
                    .fields()
                    .iter()
                    .map(|(k, v)| (k.to_string(), v.to_uppercase()))
                    .collect();
                Ok(Some(DataSourceRecord::from_iter(&fields, record.index())))
            }
        }
    }
}

fn named(name: &str) -> DataSourceRecord {
    DataSourceRecord::from_iter(
        &vec![("Code".to_string(), "gbp".to_string()), ("Name".to_string(), name.to_string())],
        DataSourceRecordIndex { record_number: 3, line_start: 4, line_end: 6 },
    )
}

#[test]
fn preprocess_continues_skips_or_fails() {
    match preprocess(Some(&Upper), named("great british pound")) {
        PreprocessStep::Continue(record) => {
            assert_eq!(record.field("Name"), Some("GREAT BRITISH POUND"));
            assert_eq!(record.field("Code"), Some("GBP"));
            assert_eq!(record.index().record_number, 3);
        }
        other => panic!("expected a record but got: {:?}", other),
    }
    assert!(matches!(preprocess(Some(&Upper), named("drop")), PreprocessStep::Skip));
    match preprocess(Some(&Upper), named("fail")) {
        PreprocessStep::Failed(error) => {
            assert_eq!(
                error.index(),
                DataSourceErrorIndex { record_number: Some(3), line_number: 4 }
            );
            assert_eq!(error.source(), "no such name");
        }
        other => panic!("expected a failure but got: {:?}", other),
    }
    match preprocess(None::<&Upper>, named("euro")) {
        PreprocessStep::Continue(record) => assert_eq!(record.field("Name"), Some("euro")),
        other => panic!("expected a record but got: {:?}", other),
    }
    let index = DataSourceRecordIndex { record_number: 9, line_start: 2, line_end: 2 };
    assert!(matches!(bridge(index, Ok(None)), PreprocessStep::Skip));
    assert!(matches!(
        bridge(index, Err("x".to_string())),
        PreprocessStep::Failed(e) if e.index().line_number == 2
    ));
}

#[test]
fn string_map_keeps_order_and_first_values() {
    let pairs: Vec<(String, String)> = [("b", "2"), ("a", "żółw"), ("b", "3"), ("c", "")]
        .iter()
        .map(|(k, v)| (k.to_string(), v.to_string()))
        .collect();
    let map = StringMap::from_pairs(&pairs);
    assert_eq!(map.len(), 3);
    assert_eq!(map.get("a"), Some("żółw"));
    assert_eq!(map.get("b"), Some("2"));
    assert_eq!(map.get("c"), Some(""));
    assert_eq!(map.get("d"), None);
    assert_eq!(map.pairs(), vec![("b", "2"), ("a", "żółw"), ("c", "")]);
    let empty = StringMap::from_pairs(&Vec::new());
    assert_eq!(empty.len(), 0);
    assert_eq!(empty.get(""), None);
    let index = DataSourceRecordIndex { record_number: 1, line_start: 2, line_end: 3 };
    let record = DataSourceRecord::new(map, index);
    assert_eq!(record.index(), index);
    assert_eq!(record.field("a"), Some("żółw"));
    assert_eq!(index.display(), "record: 1, line: 2 - 3");
    assert_eq!(
        record.display(),
        "record: 1, line: 2 - 3, fields: { \"b\": \"2\", \"a\": \"żółw\", \"c\": \"\" }"
    );
    assert_eq!(
        DataSourceErrorIndex { record_number: Some(12), line_number: 340 }.display(),
        "record: 12, line: 340"
    );
    assert_eq!(
        DataSourceErrorIndex { record_number: None, line_number: 0 }.display(),
        "record: N/A, line: 0"
    );
}

#[test]
fn tables_of_a_profile_are_taken_once() {
    let key = || {
        vec![LookupKeyColumnRaw::ParserKeyColumn(ParserKeyColumnRaw {
            key_column_identifier: "Code".to_string(),
            field_name: "code".to_string(),
        })]
    };
    let profile = ImportProfile::new(
        raw_profile(vec![
            raw_mapper(
                "Company",
                vec![
                    lookup("CountryID", "Country", key()),
                    parser("Code", "code"),
                    lookup("ParentID", "Company", key()),
                    lookup("RegionID", "geo.Region", key()),
                ],
            ),
            raw_mapper("Country", vec![lookup("RegionID", "geo.Region", key())]),
        ]),
        &Vec::new(),
    )
    .unwrap();
    let names: Vec<String> =
        collect_table_names(&profile).iter().map(|t| t.full().to_string()).collect();
    assert_eq!(names, vec!["[dbo].[Country]", "[dbo].[Company]", "[geo].[Region]"]);
    let error = ImportExecutorError::new(
        &profile,
        ImportExecutorErrorKind::FinalizeTemporaryTable("gone".to_string()),
    );
    assert_eq!(error.import_profile_name(), "companies");
    assert!(matches!(error.source(), ImportExecutorErrorKind::FinalizeTemporaryTable(_)));
}

fn actions(groups: usize, options: &ImportOptions, outcomes: &[bool]) -> (Vec<RunAction>, bool) {
    let (mut run, first) = MapperRun::start(groups, options);
    let mut all = vec![first];
    let mut outcomes = outcomes.iter();
    while *all.last().unwrap() != RunAction::Finish {
        let ok = *outcomes.next().unwrap_or(&true);
        let outcome = if ok {
            Ok(())
        } else {
            Err(ImportExecutorErrorKind::FinalizeTemporaryTable(format!("step {}", all.len())))
        };
        let (next, action) = run.next(outcome);
        run = next;
        all.push(action);
    }
    let (run, again) = run.next(Ok(()));
    assert_eq!(again, RunAction::Finish);
    (all, run.finish().is_ok())
}

#[test]
fn run_goes_through_its_phases() {
    let options = ImportOptions::default();
    assert_eq!(
        actions(3, &options, &[]),
        (vec![RunAction::BulkInsert, RunAction::Update(1), RunAction::Update(2), RunAction::Merge, RunAction::DropStaging, RunAction::Finish], true)
    );
    assert_eq!(actions(1, &options, &[]), (vec![RunAction::BulkInsert, RunAction::Merge, RunAction::DropStaging, RunAction::Finish], true));
    assert_eq!(actions(0, &options, &[]), (vec![RunAction::Merge, RunAction::DropStaging, RunAction::Finish], true));
    let kept = ImportOptions { no_drop: true, ..ImportOptions::default() };
    assert_eq!(actions(2, &kept, &[]), (vec![RunAction::BulkInsert, RunAction::Update(1), RunAction::Merge, RunAction::Finish], true));
    let unmerged = ImportOptions { no_drop: true, no_merge: true, ..ImportOptions::default() };
    assert_eq!(actions(2, &unmerged, &[]), (vec![RunAction::BulkInsert, RunAction::Update(1), RunAction::Finish], true));
}

#[test]
fn staging_table_is_dropped_once_whatever_fails() {
    let options = ImportOptions::default();
    let kept = ImportOptions { no_drop: true, ..ImportOptions::default() };
    for groups in 0..4usize {
        for failing in 0..groups + 3 {
            let mut outcomes = vec![true; failing];
            outcomes.push(false);
            let (all, ok) = actions(groups, &options, &outcomes);
            assert_eq!(all.iter().filter(|a| **a == RunAction::DropStaging).count(), 1);
            assert_eq!(all[all.len() - 2], RunAction::DropStaging);
            assert_eq!(ok, failing >= all.len() - 1);
            let (all, _) = actions(groups, &kept, &outcomes);
            assert_eq!(all.iter().filter(|a| **a == RunAction::DropStaging).count(), 0);
        }
    }
    assert_eq!(actions(3, &options, &[false]), (vec![RunAction::BulkInsert, RunAction::DropStaging, RunAction::Finish], false));
    assert_eq!(
        actions(3, &options, &[true, false]),
        (vec![RunAction::BulkInsert, RunAction::Update(1), RunAction::DropStaging, RunAction::Finish], false)
    );
    assert_eq!(
        actions(1, &options, &[true, false]),
        (vec![RunAction::BulkInsert, RunAction::Merge, RunAction::DropStaging, RunAction::Finish], false)
    );
    assert_eq!(
        actions(1, &options, &[true, true, false]),
        (vec![RunAction::BulkInsert, RunAction::Merge, RunAction::DropStaging, RunAction::Finish], false)
    );
}

#[test]
fn first_failure_of_a_run_is_kept() {
    let (run, _) = MapperRun::start(1, &ImportOptions::default());
    let (run, action) =
        run.next(Err(ImportExecutorErrorKind::FinalizeTemporaryTable("first".to_string())));
    assert_eq!(action, RunAction::DropStaging);
    let (run, action) =
        run.next(Err(ImportExecutorErrorKind::FinalizeTemporaryTable("second".to_string())));
    assert_eq!(action, RunAction::Finish);
    assert!(matches!(
        run.finish(),
        Err(ImportExecutorErrorKind::FinalizeTemporaryTable(m)) if m == "first"
    ));
}

#[test]
fn insert_failure_comes_before_closing_failure() {
    let record_error = || {
        ExecuteTableMapperError::ExecuteRecordFailed(ExecuteRecordError::new(
            DataSourceRecordIndex { record_number: 2, line_start: 3, line_end: 3 },
            ProcessRecordError::SendRowFailed("broken pipe".to_string()),
        ))
    };
    assert!(matches!(insert_result(None, Ok(12)), Ok(12)));
    assert!(matches!(
        insert_result(Some(record_error()), Ok(12)),
        Err(ExecuteTableMapperError::ExecuteRecordFailed(e)) if e.index().record_number == 2
    ));
    assert!(matches!(
        insert_result(
            Some(record_error()),
            Err(FinalizeInsertProcessorError("closed".to_string()))
        ),
        Err(ExecuteTableMapperError::ExecuteRecordFailed(e))
            if matches!(e.source(), ProcessRecordError::SendRowFailed(_))
    ));
    assert!(matches!(
        insert_result(None, Err(FinalizeInsertProcessorError("closed".to_string()))),
        Err(ExecuteTableMapperError::FinalizeInsertProcessor(e)) if e.0 == "closed"
    ));
}

#[test]
fn bulk_insert_stops_at_the_first_failure() {
    assert!(matches!(insert_step(InsertEvent::Sent), InsertAction::ReadNext));
    assert!(matches!(insert_step(InsertEvent::Skipped), InsertAction::ReadNext));
    assert!(matches!(insert_step(InsertEvent::End), InsertAction::Close));
    let place = sql_bulk_import_profile::data_source::DataSourceErrorIndex {
        record_number: Some(3),
        line_number: 4,
    };
    let failed = || {
        sql_bulk_import_profile::preprocess::PreprocessReadRecordError::new(
            place,
            "no such name".to_string(),
        )
    };
    match insert_step(InsertEvent::PreprocessFailed(failed())) {
        InsertAction::CloseWith(ExecuteTableMapperError::ReadRecordFailed(
            ReadRecordFailure::Preprocess(e),
        )) => assert_eq!(e.source(), "no such name"),
        other => panic!("expected the failure of the script but got: {:?}", other),
    }
    match insert_step(InsertEvent::ReadFailed(ReadRecordFailure::Preprocess(failed()))) {
        InsertAction::CloseWith(ExecuteTableMapperError::ReadRecordFailed(
            ReadRecordFailure::Preprocess(e),
        )) => assert_eq!(e.source(), "no such name"),
        other => panic!("expected the failure to read but got: {:?}", other),
    }
    let index = sql_bulk_import_profile::data_source::DataSourceRecordIndex {
        record_number: 2,
        line_start: 3,
        line_end: 5,
    };
    match insert_step(InsertEvent::RowFailed(
        index,
        ProcessRecordError::SendRowFailed("broken pipe".to_string()),
    )) {
        InsertAction::CloseWith(ExecuteTableMapperError::ExecuteRecordFailed(e)) => {
            assert_eq!(e.index().record_number, 2);
            assert_eq!(e.index().line_end, 5);
            assert!(
                matches!(e.source(), ProcessRecordError::SendRowFailed(m) if m == "broken pipe")
            );
        }
        other => panic!("expected the failure of the row but got: {:?}", other),
    }
}
