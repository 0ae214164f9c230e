use crate::data_source::{
    DataSourceErrorIndex, DataSourceRecord, DataSourceRecordIndex, ReadRecordError, RecordView,
};
use crate::import_profile::import_profile_raw::{
    script_language, PreprocessLanguage, PreprocessScript,
};
use vstd::prelude::*;

verus! {

/// What the script runtime answered when it was asked for a function by name.
#[derive(Debug)]
pub enum PreprocessFunctionLookup {
    /// No script is loaded, so nothing could be asked.
    NoRuntime,
    /// The script holds no such function.
    Missing,
    /// The runtime failed; its message.
    Failed(String),
    /// The function is there.
    Found,
}

impl PreprocessFunctionLookup {
    pub fn duplicate(&self) -> (r: PreprocessFunctionLookup)
        ensures
            r == *self,
    {
        match self {
            PreprocessFunctionLookup::NoRuntime => PreprocessFunctionLookup::NoRuntime,
            PreprocessFunctionLookup::Missing => PreprocessFunctionLookup::Missing,
            PreprocessFunctionLookup::Failed(m) => PreprocessFunctionLookup::Failed(m.clone()),
            PreprocessFunctionLookup::Found => PreprocessFunctionLookup::Found,
        }
    }
}

/// Why the script runtime could not be loaded.
#[derive(Debug)]
pub enum LoadPreprocessRuntimeError {
    /// The language of the script cannot be told.
    UnknownLanguage,
    /// The Lua runtime failed; its message.
    LoadLua(String),
    /// The Rhai runtime failed; its message.
    LoadRhai(String),
}

/// The language whose runtime is to be loaded for a script.
pub fn load_preprocess_runtime(script: &PreprocessScript) -> (r: Result<
    PreprocessLanguage,
    LoadPreprocessRuntimeError,
>)
    ensures
        match script_language(*script) {
            Some(l) => r == Ok::<PreprocessLanguage, LoadPreprocessRuntimeError>(l),
            None => r matches Err(LoadPreprocessRuntimeError::UnknownLanguage),
        },
{
    match script.language() {
        Some(language) => Ok(language),
        None => Err(LoadPreprocessRuntimeError::UnknownLanguage),
    }
}

/// A function of a script that rewrites a record, or drops it by giving none
/// back.
pub trait PreprocessTransform {
    fn transform(&self, record: DataSourceRecord) -> Result<Option<DataSourceRecord>, String>;
}

/// A record could not be preprocessed: where it stands and the message of
/// the script.
#[derive(Debug)]
pub struct PreprocessReadRecordError {
    index: DataSourceErrorIndex,
    source: String,
}

impl PreprocessReadRecordError {
    pub closed spec fn source_view(&self) -> Seq<char> {
        self.source@
    }

    pub fn new(index: DataSourceErrorIndex, source: String) -> (r: Self)
        ensures
            r.index_view() == index,
            r.source_view() == source@,
    {
        Self { index, source }
    }

    pub fn source(&self) -> (r: &str)
        ensures
            r@ == self.source_view(),
    {
        self.source.as_str()
    }
}

impl ReadRecordError for PreprocessReadRecordError {
    closed spec fn index_view(&self) -> DataSourceErrorIndex {
        self.index
    }

    fn index(&self) -> (r: DataSourceErrorIndex) {
        self.index
    }
}

/// What becomes of a record that was handed to the script.
#[derive(Debug)]
pub enum PreprocessStep {
    /// The import goes on with this record.
    Continue(DataSourceRecord),
    /// The record is dropped.
    Skip,
    Failed(PreprocessReadRecordError),
}

/// Where a failure to preprocess the record at `index` is placed: at the
/// record, on the line it begins on.
pub open spec fn failure_index(index: DataSourceRecordIndex) -> DataSourceErrorIndex {
    DataSourceErrorIndex { record_number: Some(index.record_number), line_number: index.line_start }
}

/// What becomes of the record that stood at `index`, given what the script
/// made of it: a record goes on, none drops the record, a failure is placed
/// at `index`.
pub fn bridge(index: DataSourceRecordIndex, result: Result<Option<DataSourceRecord>, String>) -> (r:
    PreprocessStep)
    ensures
        match result {
            Ok(Some(record)) => r matches PreprocessStep::Continue(x) && x == record,
            Ok(None) => r is Skip,
            Err(message) => r matches PreprocessStep::Failed(e) && e.index_view() == failure_index(
                index,
            ) && e.source_view() == message@,
        },
{
    match result {
        Ok(Some(record)) => PreprocessStep::Continue(record),
        Ok(None) => PreprocessStep::Skip,
        Err(message) => PreprocessStep::Failed(
            PreprocessReadRecordError::new(
                DataSourceErrorIndex {
                    record_number: Some(index.record_number),
                    line_number: index.line_start,
                },
                message,
            ),
        ),
    }
}

/// Hands the record to the script function, if there is one, and tells what
/// becomes of it. Without a function the record is what it was.
pub fn preprocess<T: PreprocessTransform>(transform: Option<&T>, record: DataSourceRecord) -> (r:
    PreprocessStep)
    ensures
        transform is None ==> (r matches PreprocessStep::Continue(x) && x == record),
        r matches PreprocessStep::Failed(e) ==> e.index_view() == failure_index(record@.index),
{
    match transform {
        Some(function) => {
            let index = record.index();
            bridge(index, function.transform(record))
        },
        None => PreprocessStep::Continue(record),
    }
}

} // verus!
