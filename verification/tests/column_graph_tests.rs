use sql_bulk_import_profile::column_graph::{
    ColumnGraph, ColumnNode, CreateColumnGraphError, UniqueColumnIdentifier,
};
use sql_bulk_import_profile::identifier::{ColumnIdentifier, Identifier, TableIdentifier};
use sql_bulk_import_profile::import_options::ImportOptions;
use sql_bulk_import_profile::merge_processor::{merge_statement, MergeProcessorError};
use sql_bulk_import_profile::metadata::{
    ColumnFlags, ColumnMetadata, FixedLenKind, SqlType, TableMetadata, VarLenKind,
};
use sql_bulk_import_profile::preprocess::PreprocessFunctionLookup;
use sql_bulk_import_profile::table_mapper::table_mapper_raw::{
    LookupColumnRaw, LookupKeyColumnRaw, ParserColumnRaw, ParserKeyColumnRaw,
    ProcessedKeyColumnRaw, StaticColumnRaw, TableMapperColumnRaw, TableMapperRaw,
};
use sql_bulk_import_profile::table_mapper::{
    Column, DeleteAction, DeleteMode, DuplicateAction, Table, TableMapper,
};
use sql_bulk_import_profile::temporary_table::{CreateTemporaryTableError, TemporaryTable};
use sql_bulk_import_profile::update_processor::update_statement;

fn mapper(table: &str, columns: Vec<TableMapperColumnRaw>, keys: &[&str]) -> TableMapper {
    TableMapper::new(
        TableMapperRaw {
            name: format!("{} mapper", table),
            field_group: "default".to_string(),
            table_identifier: TableIdentifier::parse(table).unwrap(),
            delete_mode: DeleteMode::Partial,
            delete_action: DeleteAction::NoAction,
            duplicate_action: DuplicateAction::NoCheck,
            preprocess_function: None,
            columns,
            key_columns: keys.iter().map(|k| k.to_string()).collect(),
        },
        PreprocessFunctionLookup::NoRuntime,
    )
    .unwrap()
}

fn parser(column: &str, field: &str, map: bool) -> TableMapperColumnRaw {
    TableMapperColumnRaw::Parser(ParserColumnRaw {
        column_identifier: column.to_string(),
        map_column: map,
        field_name: field.to_string(),
    })
}

fn fixed(column: &str, value: &str, map: bool) -> TableMapperColumnRaw {
    TableMapperColumnRaw::Static(StaticColumnRaw {
        column_identifier: column.to_string(),
        map_column: map,
        value: value.to_string(),
    })
}

fn lookup(
    column: &str,
    table: &str,
    output: &str,
    keys: Vec<LookupKeyColumnRaw>,
) -> TableMapperColumnRaw {
    TableMapperColumnRaw::Lookup(LookupColumnRaw {
        column_identifier: column.to_string(),
        map_column: true,
        table_identifier: TableIdentifier::parse(table).unwrap(),
        output_column_identifier: output.to_string(),
        key_columns: keys,
    })
}

fn parser_key(key: &str, field: &str) -> LookupKeyColumnRaw {
    LookupKeyColumnRaw::ParserKeyColumn(ParserKeyColumnRaw {
        key_column_identifier: key.to_string(),
        field_name: field.to_string(),
    })
}

fn processed_key(key: &str, column: &str) -> LookupKeyColumnRaw {
    LookupKeyColumnRaw::ProcessedKeyColumn(ProcessedKeyColumnRaw {
        key_column_identifier: key.to_string(),
        column_identifier: column.to_string(),
    })
}

fn metadata(table: &str, columns: &[(&str, SqlType, &str, bool, bool)]) -> TableMetadata {
    let table = TableIdentifier::parse(table).unwrap();
    let columns = columns
        .iter()
        .map(|(name, ty, sql_name, nullable, identity)| {
            (
                ColumnIdentifier::with_table(&table, name).unwrap(),
                ColumnMetadata {
                    flags: ColumnFlags { nullable: *nullable, identity: *identity },
                    ty: *ty,
                    sql_name: sql_name.to_string(),
                },
            )
        })
        .collect();
    TableMetadata { table, columns }
}

fn company_mapper() -> TableMapper {
    mapper(
        "Company",
        vec![
            parser("Code", "Code", true),
            parser("Name", "Name", true),
            lookup("CountryID", "Country", "ID", vec![parser_key("Code", "Country")]),
        ],
        &["Code"],
    )
}

fn company_metadata() -> Vec<TableMetadata> {
    let text = SqlType::VarLenSized { ty: VarLenKind::NVarchar, len: 100 };
    let int = SqlType::FixedLen(FixedLenKind::Int4);
    vec![
        metadata(
            "Company",
            &[
                ("ID", int, "int", false, true),
                ("Code", text, "nvarchar(50)", false, false),
                ("Name", text, "nvarchar(50)", true, false),
                ("CountryID", int, "int", false, false),
            ],
        ),
        metadata(
            "Country",
            &[("ID", int, "int", false, true), ("Code", text, "nvarchar(2)", false, false)],
        ),
    ]
}

fn group_indices(graph: &ColumnGraph) -> Vec<Vec<usize>> {
    graph.groups().iter().map(|g| g.iter().map(|n| n.index()).collect()).collect()
}

#[test]
fn lookup_gets_key_and_synthetic_parser() {
    let graph =
        ColumnGraph::new(&company_mapper(), &company_metadata(), &ImportOptions::default())
            .unwrap();
    assert_eq!(graph.node_bound(), 5);
    assert_eq!(group_indices(&graph), vec![vec![0, 1, 4], vec![3], vec![2]]);
    let groups = graph.groups();
    let names: Vec<String> =
        groups.iter().flatten().map(|n| n.unique_identifier().full().to_string()).collect();
    assert_eq!(
        names,
        vec![
            "[dbo].[Company].[Code_0]",
            "[dbo].[Company].[Name_1]",
            "[dbo].[Country].[Code_4]",
            "[dbo].[Country].[Code_3]",
            "[dbo].[Company].[CountryID_2]",
        ]
    );
    assert!(matches!(groups[0][2].column(), ColumnNode::ParserColumn { .. }));
    assert!(matches!(groups[1][0].column(), ColumnNode::LookupColumnParserKeyColumn(_)));
    assert!(groups[1][0].column().is_transient());
    assert!(!groups[2][0].column().is_transient());
    assert_eq!(groups[1][0].column().display(), "parser key column [Code]");
    assert_eq!(groups[2][0].column().display(), "lookup column [CountryID]");
}

#[test]
fn dependencies_follow_the_edges() {
    let graph =
        ColumnGraph::new(&company_mapper(), &company_metadata(), &ImportOptions::default())
            .unwrap();
    let of_lookup: Vec<usize> = graph.column_dependencies(2).iter().map(|n| n.index()).collect();
    assert_eq!(of_lookup, vec![3]);
    let of_key: Vec<usize> = graph.column_dependencies(3).iter().map(|n| n.index()).collect();
    assert_eq!(of_key, vec![4]);
    assert!(graph.column_dependencies(0).is_empty());
    assert!(graph.column_dependencies(17).is_empty());
}

#[test]
fn metadata_is_attached_or_defaulted() {
    let graph =
        ColumnGraph::new(&company_mapper(), &company_metadata(), &ImportOptions::default())
            .unwrap();
    let groups = graph.groups();
    assert_eq!(groups[0][0].metadata().sql_name, "nvarchar(50)");
    assert!(!groups[0][0].metadata().flags.nullable);
    assert_eq!(groups[2][0].metadata().ty, SqlType::FixedLen(FixedLenKind::Int4));
    let unknown = ColumnGraph::new(&company_mapper(), &Vec::new(), &ImportOptions::default())
        .unwrap();
    let groups = unknown.groups();
    assert_eq!(groups[0][0].metadata().sql_name, "nvarchar(max)");
    assert!(groups[0][0].metadata().flags.nullable);
    assert!(!groups[0][0].metadata().flags.identity);
    assert_eq!(
        groups[0][0].metadata().ty,
        SqlType::VarLenSized { ty: VarLenKind::NVarchar, len: usize::MAX }
    );
}

#[test]
fn target_columns_are_the_mapped_nodes() {
    let graph =
        ColumnGraph::new(&company_mapper(), &company_metadata(), &ImportOptions::default())
            .unwrap();
    let targets: Vec<usize> = graph.target_columns().iter().map(|n| n.index()).collect();
    assert_eq!(targets, vec![0, 1, 2]);
}

#[test]
fn staging_table_statement() {
    let graph =
        ColumnGraph::new(&company_mapper(), &company_metadata(), &ImportOptions::default())
            .unwrap();
    let target = TableIdentifier::parse("Company").unwrap();
    let staging = TemporaryTable::new(&target, &graph).unwrap();
    assert_eq!(staging.identifier().full(), "[import].[Company]");
    assert_eq!(
        staging.create_statement(),
        "IF EXISTS (SELECT * FROM sys.objects WHERE object_id = OBJECT_ID(N'[import].[Company]') AND type in (N'U'))\n\
BEGIN\n    DROP TABLE [import].[Company]\nEND\n\n\
CREATE TABLE [import].[Company] (\n    \
[Code_0] nvarchar(50) NOT NULL,\n    \
[Name_1] nvarchar(50) NULL,\n    \
[Code_4] nvarchar(2) NOT NULL,\n    \
[CountryID_2] int NULL\n)\n"
    );
    let kept = ImportOptions { no_drop: true, ..ImportOptions::default() };
    assert_eq!(TemporaryTable::new(&target, &graph).unwrap().finalize(&kept), None);
    assert_eq!(
        staging.finalize(&ImportOptions::default()),
        Some("DROP TABLE [import].[Company]\n".to_string())
    );
}

#[test]
fn staging_table_needs_a_column() {
    let only_static = mapper("Flags", vec![fixed("Kind", "A", true)], &[]);
    let graph = ColumnGraph::new(&only_static, &Vec::new(), &ImportOptions::default()).unwrap();
    let target = TableIdentifier::parse("Flags").unwrap();
    assert!(matches!(
        TemporaryTable::new(&target, &graph),
        Err(CreateTemporaryTableError::NoNonTransientColumns)
    ));
}

#[test]
fn update_statement_for_the_lookup_group() {
    let graph =
        ColumnGraph::new(&company_mapper(), &company_metadata(), &ImportOptions::default())
            .unwrap();
    let target = TableIdentifier::parse("Company").unwrap();
    let staging = TemporaryTable::new(&target, &graph).unwrap();
    let groups = graph.groups();
    assert!(update_statement(&staging, &groups[1], &graph).unwrap().is_none());
    let statement = update_statement(&staging, &groups[2], &graph).unwrap().unwrap();
    assert!(statement.parameters.is_empty());
    assert_eq!(
        statement.text,
        "UPDATE t\nSET\n    t.[CountryID_2] = l_CountryID_2.[ID]\nFROM [import].[Company] t\n\
OUTER APPLY (\n    SELECT TOP 1 l_inner.[ID]\n    FROM [dbo].[Country] l_inner\n    WHERE\n        \
l_inner.[Code] = t.[Code_4]\n        \n        \n) l_CountryID_2\n\n"
    );
}

#[test]
fn merge_statement_for_the_targets() {
    let mapper = company_mapper();
    let graph =
        ColumnGraph::new(&mapper, &company_metadata(), &ImportOptions::default()).unwrap();
    let target = TableIdentifier::parse("Company").unwrap();
    let staging = TemporaryTable::new(&target, &graph).unwrap();
    let statement = merge_statement(
        &target,
        staging.identifier(),
        mapper.key_columns(),
        &graph.target_columns(),
    )
    .unwrap();
    assert_eq!(
        statement,
        "MERGE INTO [dbo].[Company] AS T\nUSING [import].[Company] AS S\nON\n    \
T.[Code] = S.[Code_0]\nWHEN MATCHED THEN\n    UPDATE SET\n        \
T.[Name] = S.[Name_1],\n        T.[CountryID] = S.[CountryID_2]\n\
WHEN NOT MATCHED BY TARGET THEN\n    INSERT ([Code], [Name], [CountryID])\n    \
VALUES ([Code_0], [Name_1], [CountryID_2]);\n"
    );
}

#[test]
fn merge_leaves_identity_columns_out() {
    let mapper = mapper(
        "Company",
        vec![parser("ID", "Id", true), parser("Code", "Code", true), parser("Name", "Name", true)],
        &["Code", "Code"],
    );
    let graph =
        ColumnGraph::new(&mapper, &company_metadata(), &ImportOptions::default()).unwrap();
    let target = TableIdentifier::parse("Company").unwrap();
    let staging = TableIdentifier::parse("import.Company").unwrap();
    let statement =
        merge_statement(&target, &staging, mapper.key_columns(), &graph.target_columns())
            .unwrap();
    assert_eq!(
        statement,
        "MERGE INTO [dbo].[Company] AS T\nUSING [import].[Company] AS S\nON\n    \
T.[Code] = S.[Code_1]\nWHEN MATCHED THEN\n    UPDATE SET\n        T.[Name] = S.[Name_2]\n\
WHEN NOT MATCHED BY TARGET THEN\n    INSERT ([Code], [Name])\n    VALUES ([Code_1], [Name_2]);\n"
    );
}

#[test]
fn merge_inserts_one_value_for_each_column() {
    let mapper = mapper(
        "Currency",
        vec![parser("Code", "Code", true), fixed("Kind", "legal", true), parser("Name", "Name", true)],
        &["Code"],
    );
    let graph = ColumnGraph::new(&mapper, &Vec::new(), &ImportOptions::default()).unwrap();
    let target = TableIdentifier::parse("Currency").unwrap();
    let staging = TableIdentifier::parse("import.Currency").unwrap();
    let statement =
        merge_statement(&target, &staging, mapper.key_columns(), &graph.target_columns())
            .unwrap();
    assert_eq!(
        statement,
        "MERGE INTO [dbo].[Currency] AS T\nUSING [import].[Currency] AS S\nON\n    \
T.[Code] = S.[Code_0]\nWHEN MATCHED THEN\n    UPDATE SET\n        \
T.[Kind] = S.[Kind_1],\n        T.[Name] = S.[Name_2]\n\
WHEN NOT MATCHED BY TARGET THEN\n    INSERT ([Code], [Name])\n    VALUES ([Code_0], [Name_2]);\n"
    );
}

#[test]
fn names_between_brackets_run_through_the_statements() {
    let mapper = mapper(
        "dbo.[price list]",
        vec![parser("[item no.]", "Item", true), parser("[unit price (net)]", "Price", true)],
        &["[item no.]"],
    );
    let graph = ColumnGraph::new(&mapper, &Vec::new(), &ImportOptions::default()).unwrap();
    let target = TableIdentifier::parse("dbo.[price list]").unwrap();
    let staging = TemporaryTable::new(&target, &graph).unwrap();
    assert_eq!(staging.identifier().full(), "[import].[price list]");
    assert!(staging.create_statement().contains(
        "[item no._0] nvarchar(max) NULL,\n    [unit price (net)_1] nvarchar(max) NULL\n"
    ));
    let statement = merge_statement(
        &target,
        staging.identifier(),
        mapper.key_columns(),
        &graph.target_columns(),
    )
    .unwrap();
    assert_eq!(
        statement,
        "MERGE INTO [dbo].[price list] AS T\nUSING [import].[price list] AS S\nON\n    \
T.[item no.] = S.[item no._0]\nWHEN MATCHED THEN\n    UPDATE SET\n        \
T.[unit price (net)] = S.[unit price (net)_1]\n\
WHEN NOT MATCHED BY TARGET THEN\n    INSERT ([item no.], [unit price (net)])\n    \
VALUES ([item no._0], [unit price (net)_1]);\n"
    );
}

#[test]
fn merge_key_must_be_a_target_column() {
    let mapper = mapper("Company", vec![parser("Code", "Code", true)], &["Name"]);
    let graph =
        ColumnGraph::new(&mapper, &company_metadata(), &ImportOptions::default()).unwrap();
    let target = TableIdentifier::parse("Company").unwrap();
    let staging = TableIdentifier::parse("import.Company").unwrap();
    match merge_statement(&target, &staging, mapper.key_columns(), &graph.target_columns()) {
        Err(MergeProcessorError::KeyColumnUnknownTargetColumn(key)) => {
            assert_eq!(key.full(), "[dbo].[Company].[Name]")
        }
        other => panic!("expected an unknown key but got: {:?}", other),
    }
}

#[test]
fn identical_parser_columns_collapse() {
    let mapper = mapper(
        "Currency",
        vec![parser("Code", "Code", false), parser("Name", "Name", true), parser("Code", "Code", true)],
        &["Code"],
    );
    let graph = ColumnGraph::new(&mapper, &Vec::new(), &ImportOptions::default()).unwrap();
    assert_eq!(group_indices(&graph), vec![vec![0, 1]]);
    let targets = graph.target_columns();
    let indices: Vec<usize> = targets.iter().map(|n| n.index()).collect();
    assert_eq!(indices, vec![0, 1]);
    assert!(targets[0].column().map());
    assert!(matches!(
        targets[0].column(),
        ColumnNode::ParserColumn { map_column: true, .. }
    ));
    let plain = ImportOptions { no_duplicate_optimization: true, ..ImportOptions::default() };
    let graph = ColumnGraph::new(&mapper, &Vec::new(), &plain).unwrap();
    assert_eq!(group_indices(&graph), vec![vec![0, 1, 2]]);
    let indices: Vec<usize> = graph.target_columns().iter().map(|n| n.index()).collect();
    assert_eq!(indices, vec![1, 2]);
}

#[test]
fn one_field_for_two_target_columns() {
    let mapper = mapper(
        "Currency",
        vec![parser("Code", "Code", true), parser("Symbol", "Code", true)],
        &["Code"],
    );
    let graph = ColumnGraph::new(&mapper, &Vec::new(), &ImportOptions::default()).unwrap();
    assert_eq!(group_indices(&graph), vec![vec![0, 1]]);
    let target = TableIdentifier::parse("Currency").unwrap();
    let staging = TemporaryTable::new(&target, &graph).unwrap();
    assert!(staging.create_statement().contains(
        "[Code_0] nvarchar(max) NULL,\n    [Symbol_1] nvarchar(max) NULL\n"
    ));
    let statement = merge_statement(
        &target,
        staging.identifier(),
        mapper.key_columns(),
        &graph.target_columns(),
    )
    .unwrap();
    assert!(statement.contains("INSERT ([Code], [Symbol])\n    VALUES ([Code_0], [Symbol_1]);"));
    assert!(statement.contains("UPDATE SET\n        T.[Symbol] = S.[Symbol_1]\n"));
}

#[test]
fn shared_lookup_keys_collapse_with_their_parsers() {
    let mapper = mapper(
        "Company",
        vec![
            lookup("CountryID", "Country", "ID", vec![parser_key("Code", "Country")]),
            lookup("RegionID", "Country", "Region", vec![parser_key("Code", "Country")]),
        ],
        &[],
    );
    let graph = ColumnGraph::new(&mapper, &Vec::new(), &ImportOptions::default()).unwrap();
    // 0 lookup, 1 key, 2 parser, 3 lookup, 4 key (as 1), 5 parser (as 2)
    assert_eq!(group_indices(&graph), vec![vec![2], vec![1], vec![0, 3]]);
    let first: Vec<usize> = graph.column_dependencies(0).iter().map(|n| n.index()).collect();
    let second: Vec<usize> = graph.column_dependencies(3).iter().map(|n| n.index()).collect();
    assert_eq!(first, vec![1]);
    assert_eq!(second, vec![1]);
    let plain = ImportOptions { no_duplicate_optimization: true, ..ImportOptions::default() };
    let graph = ColumnGraph::new(&mapper, &Vec::new(), &plain).unwrap();
    assert_eq!(group_indices(&graph), vec![vec![2, 5], vec![1, 4], vec![0, 3]]);
}

#[test]
fn processed_key_points_at_a_column_of_the_mapper() {
    let mapper = mapper(
        "Company",
        vec![
            parser("Code", "Code", true),
            lookup("CountryID", "Country", "ID", vec![parser_key("Code", "Country")]),
            lookup(
                "RegionID",
                "Region",
                "ID",
                vec![processed_key("CountryID", "CountryID"), processed_key("Code", "Code")],
            ),
        ],
        &["Code"],
    );
    let graph = ColumnGraph::new(&mapper, &Vec::new(), &ImportOptions::default()).unwrap();
    // 0 parser, 1 lookup, 2 key, 3 parser, 4 lookup, 5 processed key, 6 processed key
    assert_eq!(
        group_indices(&graph),
        vec![vec![0, 3], vec![2, 6], vec![1], vec![5], vec![4]]
    );
    let of_region: Vec<usize> = graph.column_dependencies(4).iter().map(|n| n.index()).collect();
    assert_eq!(of_region, vec![6, 5]);
    let of_key: Vec<usize> = graph.column_dependencies(5).iter().map(|n| n.index()).collect();
    assert_eq!(of_key, vec![1]);
    let target = TableIdentifier::parse("Company").unwrap();
    let staging = TemporaryTable::new(&target, &graph).unwrap();
    let groups = graph.groups();
    let statement = update_statement(&staging, &groups[4], &graph).unwrap().unwrap();
    assert!(statement.text.contains(
        "WHERE\n        l_inner.[Code] = t.[Code_0] AND l_inner.[CountryID] = t.[CountryID_1]\n"
    ));
}

#[test]
fn processed_key_without_target_is_refused() {
    let mapper = mapper(
        "Company",
        vec![lookup("RegionID", "Region", "ID", vec![processed_key("Country", "CountryID")])],
        &[],
    );
    match ColumnGraph::new(&mapper, &Vec::new(), &ImportOptions::default()) {
        Err(CreateColumnGraphError::ProcessedKeyColumnUnknownTargetColumn(key)) => {
            assert_eq!(key.full(), "[dbo].[Region].[Country]")
        }
        other => panic!("expected an unknown target but got: {:?}", other),
    }
}

#[test]
fn synthetic_parser_is_no_target_of_a_processed_key() {
    let mapper = mapper(
        "Company",
        vec![lookup(
            "ParentID",
            "Company",
            "ID",
            vec![parser_key("Code", "Parent"), processed_key("Name", "Code")],
        )],
        &[],
    );
    assert!(matches!(
        ColumnGraph::new(&mapper, &Vec::new(), &ImportOptions::default()),
        Err(CreateColumnGraphError::ProcessedKeyColumnUnknownTargetColumn(_))
    ));
}

#[test]
fn cycle_is_refused() {
    let mapper = mapper(
        "Company",
        vec![
            lookup("CountryID", "Country", "ID", vec![processed_key("Region", "RegionID")]),
            lookup("RegionID", "Region", "ID", vec![processed_key("Country", "CountryID")]),
        ],
        &[],
    );
    match ColumnGraph::new(&mapper, &Vec::new(), &ImportOptions::default()) {
        Err(CreateColumnGraphError::ColumnCycle(column)) => {
            let involved = [
                "[dbo].[Company].[CountryID]",
                "[dbo].[Company].[RegionID]",
                "[dbo].[Country].[Region]",
                "[dbo].[Region].[Country]",
            ];
            assert!(involved.contains(&column.full()), "not on the cycle: {}", column.full());
        }
        other => panic!("expected a cycle but got: {:?}", other),
    }
    let own = mapper_with_self_reference();
    assert!(matches!(
        ColumnGraph::new(&own, &Vec::new(), &ImportOptions::default()),
        Err(CreateColumnGraphError::ColumnCycle(_))
    ));
}

fn mapper_with_self_reference() -> TableMapper {
    mapper(
        "Company",
        vec![lookup("CountryID", "Country", "ID", vec![processed_key("Code", "CountryID")])],
        &[],
    )
}

#[test]
fn unique_identifier_is_part_and_index() {
    let column = ColumnIdentifier::parse("dbo.Company.Code").unwrap();
    let unique = UniqueColumnIdentifier::new(&column, 120);
    assert_eq!(unique.full(), "[dbo].[Company].[Code_120]");
    assert_eq!(unique.part(), "[Code_120]");
    assert_eq!(unique.part_unescaped(), "Code_120");
    assert_eq!(UniqueColumnIdentifier::new(&column, 0).part(), "[Code_0]");
    let table = TableIdentifier::parse("Company").unwrap();
    let spaced = ColumnIdentifier::with_table(&table, "[postal code]").unwrap();
    assert_eq!(UniqueColumnIdentifier::new(&spaced, 4).part(), "[postal code_4]");
    let staging = TemporaryTable::new(
        &TableIdentifier::parse("dbo.[price list]").unwrap(),
        &ColumnGraph::new(
            &mapper("dbo.[price list]", vec![parser("Code", "Code", true)], &["Code"]),
            &Vec::new(),
            &ImportOptions::default(),
        )
        .unwrap(),
    )
    .unwrap();
    assert_eq!(staging.identifier().full(), "[import].[price list]");
    assert_eq!(
        UniqueColumnIdentifier::parse("Company.Code_7").unwrap().full(),
        "[dbo].[Company].[Code_7]"
    );
}
