pub mod column_graph;
pub mod data_source;
pub mod delimited_data_source;
pub mod graph_laws;
pub mod graph_layers;
pub mod graph_plan;
pub mod identifier;
pub mod import_executor;
pub mod import_options;
pub mod import_profile;
pub mod insert_processor;
pub mod merge_processor;
pub mod metadata;
pub mod preprocess;
pub mod sql_value;
pub mod table_mapper;
pub mod temporary_table;
pub mod text;
pub mod topology;
pub mod update_processor;
pub mod xml_data_source;
