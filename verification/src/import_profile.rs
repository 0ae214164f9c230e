pub mod import_profile_raw;

use crate::delimited_data_source::CreateDelimitedDataSourceError;
use crate::import_options::ImportOptions;
use crate::import_profile::import_profile_raw::ImportProfileRaw;
use crate::preprocess::{LoadPreprocessRuntimeError, PreprocessFunctionLookup};
use crate::table_mapper::table_mapper_raw::TableMapperRaw;
use crate::table_mapper::{
    table_mapper_of, CreateTableMapperError, CreateTableMapperFailure, TableMapper,
    TableMapperView,
};
use crate::xml_data_source::CreateXmlDataSourceError;
use vstd::prelude::*;

verus! {

/// A field of the data source.
#[derive(Debug)]
pub struct Field {
    pub name: String,
    pub formatters: Option<Vec<Formatter>>,
    pub required: Option<Required>,
}

impl Field {
    pub fn name(&self) -> (r: &str)
        ensures
            r@ == self.name@,
    {
        self.name.as_str()
    }
}

/// A way to rewrite the value of a field.
#[derive(Debug)]
pub enum Formatter {
    /// Trim whitespace characters from the field
    Trim,
    /// Uppercase the field
    Uppercase,
    /// Lowercase the field
    Lowercase,
    /// Apply regex substitution to the field
    Regex,
    /// Map values for the field
    Mapping { default: Option<String>, mappings: Vec<(String, String)> },
}

/// What happens to a record in which a field is empty.
#[derive(Debug, Clone, Copy, PartialEq, Eq, Structural)]
pub enum Required {
    /// Drop record if field is empty
    Drop,
    /// Error on record if field is empty
    Error,
}

/// How a delimited file is read.
#[derive(Debug, Clone, Copy, PartialEq, Eq, Structural)]
pub enum DelimitedReaderConfig {
    /// Commas between fields, quotes around fields that need them.
    Csv,
    /// Tabs between fields.
    Txt,
    Custom(DelimitedReaderCustomConfig),
}

#[derive(Debug, Clone, Copy, PartialEq, Eq, Structural)]
pub struct DelimitedReaderCustomConfig {
    pub delimiter: char,
    pub terminator: Terminator,
    pub quote: char,
    pub quoting: bool,
    pub comment: Option<char>,
    pub escape: Option<char>,
    pub double_quote: bool,
}

/// What ends a record.
#[derive(Debug, Clone, Copy, PartialEq, Eq, Structural)]
pub enum Terminator {
    /// A line break of either kind.
    CRLF,
    /// The given character.
    Any(char),
}

impl Default for Terminator {
    fn default() -> (r: Self)
        ensures
            r == Terminator::CRLF,
    {
        Terminator::CRLF
    }
}

impl Default for DelimitedReaderCustomConfig {
    fn default() -> (r: Self)
        ensures
            r == (DelimitedReaderCustomConfig {
                delimiter: '\0',
                terminator: Terminator::CRLF,
                quote: '"',
                quoting: true,
                comment: None,
                escape: None,
                double_quote: true,
            }),
    {
        Self {
            delimiter: '\0',
            terminator: Terminator::CRLF,
            quote: '"',
            quoting: true,
            comment: None,
            escape: None,
            double_quote: true,
        }
    }
}

/// Where the records come from and how they are read. Each field group names
/// the fields that one kind of table mapper reads.
#[derive(Debug)]
pub enum ImportProfileDataSourceConfig {
    XmlDataSourceConfig { path: String, field_groups: Vec<(String, Vec<Field>)>, selector: String },
    DelimitedDataSourceConfig {
        path: String,
        field_groups: Vec<(String, Vec<Field>)>,
        reader_config: DelimitedReaderConfig,
    },
}

/// A named import: where the records come from, and the table mappers that
/// put them into tables.
#[derive(Debug)]
pub struct ImportProfile {
    name: String,
    description: Option<String>,
    data_source_config: ImportProfileDataSourceConfig,
    table_mappers: Vec<TableMapper>,
}

/// Why no import profile could be made.
#[derive(Debug)]
pub enum CreateImportProfileError {
    /// The document could not be read; the message.
    DeserializationError(String),
    /// No table mapper has a column.
    TableMappersEmpty,
    CreateTableMapperError(CreateTableMapperError),
    LoadPreprocessScriptError(LoadPreprocessRuntimeError),
}

/// Whether some mapper among the first `upto` has a column.
pub open spec fn any_columns(mappers: Seq<TableMapperRaw>, upto: int) -> bool
    decreases upto,
{
    if upto <= 0 {
        false
    } else {
        any_columns(mappers, upto - 1) || mappers[upto - 1].columns@.len() > 0
    }
}

/// Whether none of the first `upto` mappers names a preprocess function.
pub open spec fn no_function_named(mappers: Seq<TableMapperRaw>, upto: int) -> bool
    decreases upto,
{
    if upto <= 0 {
        true
    } else {
        no_function_named(mappers, upto - 1) && (match mappers[upto - 1].preprocess_function {
            None => true,
            Some(name) => name@.len() == 0,
        })
    }
}

/// Whether the profile has a preprocess script that no mapper uses.
pub open spec fn script_unused(raw: ImportProfileRaw) -> bool {
    raw.preprocess_script is Some && no_function_named(
        raw.table_mappers@,
        raw.table_mappers@.len() as int,
    )
}

/// What the runtime answered for the mapper at `i`; where no answer is
/// given, no runtime was there to ask.
pub open spec fn lookup_for(lookups: Seq<PreprocessFunctionLookup>, i: int) -> PreprocessFunctionLookup {
    if 0 <= i < lookups.len() {
        lookups[i]
    } else {
        PreprocessFunctionLookup::NoRuntime
    }
}

/// The first `upto` table mappers, or the failure of the first that cannot
/// be made.
pub open spec fn mappers_of(
    raws: Seq<TableMapperRaw>,
    lookups: Seq<PreprocessFunctionLookup>,
    upto: int,
) -> Result<Seq<TableMapperView>, (int, CreateTableMapperFailure)>
    decreases upto,
{
    if upto <= 0 {
        Ok(Seq::empty())
    } else {
        match mappers_of(raws, lookups, upto - 1) {
            Err(e) => Err(e),
            Ok(before) => match table_mapper_of(raws[upto - 1], lookup_for(lookups, upto - 1)) {
                Err(e) => Err((upto - 1, e)),
                Ok(mapper) => Ok(before.push(mapper)),
            },
        }
    }
}

/// The views of a list of table mappers.
pub open spec fn mapper_views(mappers: Seq<TableMapper>) -> Seq<TableMapperView> {
    Seq::new(mappers.len(), |i: int| mappers[i]@)
}

/// A failure among the first mappers is the failure of all.
pub proof fn lemma_mappers_fail(
    raws: Seq<TableMapperRaw>,
    lookups: Seq<PreprocessFunctionLookup>,
    i: int,
    upto: int,
)
    requires
        0 <= i < upto,
        mappers_of(raws, lookups, i + 1) is Err,
    ensures
        mappers_of(raws, lookups, upto) == mappers_of(raws, lookups, i + 1),
    decreases upto - i,
{
    if i + 1 < upto {
        lemma_mappers_fail(raws, lookups, i, upto - 1);
    }
}

impl ImportProfile {
    pub closed spec fn name_view(&self) -> Seq<char> {
        self.name@
    }

    pub closed spec fn mappers_view(&self) -> Seq<TableMapperView> {
        mapper_views(self.table_mappers@)
    }

    pub closed spec fn description_view(&self) -> Option<Seq<char>> {
        match self.description {
            Some(d) => Some(d@),
            None => None,
        }
    }

    pub closed spec fn config_view(&self) -> ImportProfileDataSourceConfig {
        self.data_source_config
    }

    /// Whether the profile has a preprocess script that none of its mappers
    /// uses.
    pub fn has_unused_script(raw: &ImportProfileRaw) -> (r: bool)
        ensures
            r == script_unused(*raw),
    {
        if raw.preprocess_script.is_none() {
            return false;
        }
        let mut i: usize = 0;
        while i < raw.table_mappers.len()
            invariant
                i <= raw.table_mappers.len(),
                no_function_named(raw.table_mappers@, i as int),
            decreases raw.table_mappers.len() - i,
        {
            match &raw.table_mappers[i].preprocess_function {
                None => {},
                Some(name) => {
                    if !name.as_str().is_empty() {
                        proof {
                            lemma_function_named(
                                raw.table_mappers@,
                                i as int,
                                raw.table_mappers@.len() as int,
                            );
                        }
                        return false;
                    }
                },
            }
            i += 1;
        }
        true
    }

    /// Makes the profile that `raw` stands for. `lookups` holds, for each
    /// table mapper in order, what the script runtime answered when asked for
    /// the preprocess function of the mapper.
    pub fn new(raw: ImportProfileRaw, lookups: &Vec<PreprocessFunctionLookup>) -> (r: Result<
        ImportProfile,
        CreateImportProfileError,
    >)
        ensures
            ({
                let n = raw.table_mappers@.len() as int;
                if !any_columns(raw.table_mappers@, n) {
                    r matches Err(CreateImportProfileError::TableMappersEmpty)
                } else {
                    match mappers_of(raw.table_mappers@, lookups@, n) {
                        Err(e) => r matches Err(CreateImportProfileError::CreateTableMapperError(x))
                            && x.source_view() == e.1 && x.table_view()
                            == raw.table_mappers@[e.0].table_identifier@,
                        Ok(mappers) => r matches Ok(profile) && profile.name_view() == raw.name@
                            && profile.mappers_view() == mappers && profile.config_view()
                            == raw.data_source_config && profile.description_view() == (
                        match raw.description {
                            Some(d) => Some(d@),
                            None => None,
                        }),
                    }
                }
            }),
    {
        let ImportProfileRaw { name, description, data_source_config, preprocess_script, table_mappers } =
            raw;
        let ghost raws = table_mappers@;
        let mut any = false;
        let mut i: usize = 0;
        while i < table_mappers.len()
            invariant
                i <= table_mappers.len(),
                any == any_columns(table_mappers@, i as int),
            decreases table_mappers.len() - i,
        {
            if table_mappers[i].columns.len() > 0 {
                any = true;
            }
            i += 1;
        }
        if !any {
            return Err(CreateImportProfileError::TableMappersEmpty);
        }
        let mut mappers: Vec<TableMapper> = Vec::new();
        let mut remaining = table_mappers;
        proof {
            assert(mapper_views(mappers@) =~= Seq::empty());
        }
        let n = remaining.len();
        assert(any_columns(raws, n as int));
        let mut reversed: Vec<TableMapperRaw> = Vec::new();
        while remaining.len() > 0
            invariant
                remaining@.len() + reversed@.len() == n,
                n == raws.len(),
                forall|k: int| 0 <= k < remaining@.len() ==> remaining@[k] == raws[k],
                forall|k: int|
                    0 <= k < reversed@.len() ==> reversed@[k] == raws[n - 1 - k],
            decreases remaining.len(),
        {
            let last = remaining.pop();
            match last {
                Some(m) => reversed.push(m),
                None => {},
            }
        }
        let mut i: usize = 0;
        while reversed.len() > 0
            invariant
                i + reversed@.len() == n,
                n == raws.len(),
                raws == raw.table_mappers@,
                any_columns(raws, n as int),
                forall|k: int|
                    0 <= k < reversed@.len() ==> reversed@[k] == raws[n - 1 - k],
                mappers_of(raws, lookups@, i as int) == Ok::<
                    Seq<TableMapperView>,
                    (int, CreateTableMapperFailure),
                >(mapper_views(mappers@)),
            decreases reversed.len(),
        {
            let raw_mapper = match reversed.pop() {
                Some(m) => m,
                None => {
                    assert(false);
                    vstd::pervasive::unreached()
                },
            };
            assert(raw_mapper == raws[i as int]);
            let lookup = if i < lookups.len() {
                lookups[i].duplicate()
            } else {
                PreprocessFunctionLookup::NoRuntime
            };
            match TableMapper::new(raw_mapper, lookup) {
                Ok(mapper) => {
                    proof {
                        assert(mapper_views(mappers@.push(mapper)) =~= mapper_views(mappers@).push(
                            mapper@,
                        ));
                    }
                    mappers.push(mapper);
                },
                Err(e) => {
                    proof {
                        assert(lookup == lookup_for(lookups@, i as int));
                        assert(table_mapper_of(raws[i as int], lookup_for(lookups@, i as int))
                            is Err);
                        assert(mappers_of(raws, lookups@, i + 1) == Err::<
                            Seq<TableMapperView>,
                            (int, CreateTableMapperFailure),
                        >((i as int, e.source_view())));
                        lemma_mappers_fail(raws, lookups@, i as int, n as int);
                    }
                    return Err(CreateImportProfileError::CreateTableMapperError(e));
                },
            }
            i += 1;
        }
        Ok(ImportProfile { name, description, data_source_config, table_mappers: mappers })
    }

    pub fn name(&self) -> (r: &str)
        ensures
            r@ == self.name_view(),
    {
        self.name.as_str()
    }

    pub fn description(&self) -> (r: Option<&str>)
        ensures
            match self.description_view() {
                Some(d) => r matches Some(s) && s@ == d,
                None => r is None,
            },
    {
        match &self.description {
            Some(d) => Some(d.as_str()),
            None => None,
        }
    }

    pub fn data_source_config(&self) -> (r: &ImportProfileDataSourceConfig)
        ensures
            *r == self.config_view(),
    {
        &self.data_source_config
    }

    pub fn table_mappers(&self) -> (r: &Vec<TableMapper>)
        ensures
            mapper_views(r@) == self.mappers_view(),
    {
        &self.table_mappers
    }
}

/// A mapper that names a function shows in every longer list.
pub proof fn lemma_function_named(mappers: Seq<TableMapperRaw>, i: int, upto: int)
    requires
        0 <= i < upto,
        !no_function_named(mappers, i + 1),
    ensures
        !no_function_named(mappers, upto),
    decreases upto - i,
{
    if i + 1 < upto {
        lemma_function_named(mappers, i, upto - 1);
    }
}

/// Why no data source could be made.
#[derive(Debug)]
pub enum CreateDataSourceErrorKind {
    /// The data source has no field group of that name.
    UnknownFieldGroup(String),
    Xml(CreateXmlDataSourceError),
    Delimited(CreateDelimitedDataSourceError),
}

/// The failure to make a data source, with the path of its file.
#[derive(Debug)]
pub struct CreateDataSourceError {
    data_source_path: String,
    source: CreateDataSourceErrorKind,
}

impl CreateDataSourceError {
    pub closed spec fn path_view(&self) -> Seq<char> {
        self.data_source_path@
    }

    pub closed spec fn source_view(&self) -> CreateDataSourceErrorKind {
        self.source
    }

    pub fn new(data_source_path: &str, source: CreateDataSourceErrorKind) -> (r: Self)
        ensures
            r.path_view() == data_source_path@,
            r.source_view() == source,
    {
        CreateDataSourceError { data_source_path: data_source_path.to_owned(), source }
    }

    pub fn data_source_path(&self) -> (r: &str)
        ensures
            r@ == self.path_view(),
    {
        self.data_source_path.as_str()
    }

    pub fn source(&self) -> (r: &CreateDataSourceErrorKind)
        ensures
            *r == self.source_view(),
    {
        &self.source
    }
}

/// The first field group from `i` on of the name `name`.
pub open spec fn group_position(groups: Seq<(String, Vec<Field>)>, name: Seq<char>, i: int) -> Option<
    int,
>
    decreases groups.len() - i,
{
    if i >= groups.len() {
        None
    } else if groups[i].0@ == name {
        Some(i)
    } else {
        group_position(groups, name, i + 1)
    }
}

impl ImportProfileDataSourceConfig {
    /// The path of the file as the profile gives it.
    pub open spec fn path_view(&self) -> Seq<char> {
        match self {
            ImportProfileDataSourceConfig::XmlDataSourceConfig { path, .. } => path@,
            ImportProfileDataSourceConfig::DelimitedDataSourceConfig { path, .. } => path@,
        }
    }

    pub open spec fn groups_view(&self) -> Seq<(String, Vec<Field>)> {
        match self {
            ImportProfileDataSourceConfig::XmlDataSourceConfig { field_groups, .. } => field_groups@,
            ImportProfileDataSourceConfig::DelimitedDataSourceConfig { field_groups, .. } => {
                field_groups@
            },
        }
    }

    pub fn path(&self) -> (r: &str)
        ensures
            r@ == self.path_view(),
    {
        match self {
            ImportProfileDataSourceConfig::XmlDataSourceConfig { path, .. } => path.as_str(),
            ImportProfileDataSourceConfig::DelimitedDataSourceConfig { path, .. } => path.as_str(),
        }
    }

    /// The path of the file to read: that of the options where they give
    /// one, else that of the profile.
    pub fn source_path<'a>(&'a self, import_options: &'a ImportOptions) -> (r: &'a str)
        ensures
            r@ == (match import_options.path_override {
                Some(p) => p@,
                None => self.path_view(),
            }),
    {
        match &import_options.path_override {
            Some(p) => p.as_str(),
            None => self.path(),
        }
    }

    /// The fields that a table mapper reads: those of the field group that it
    /// names.
    pub fn fields_for(&self, table_mapper: &TableMapper) -> (r: Result<
        &Vec<Field>,
        CreateDataSourceError,
    >)
        ensures
            match group_position(self.groups_view(), table_mapper@.field_group, 0) {
                Some(i) => r matches Ok(fields) && *fields == self.groups_view()[i].1,
                None => r matches Err(e) && e.path_view() == self.path_view() && (e.source_view()
                    matches CreateDataSourceErrorKind::UnknownFieldGroup(name) && name@
                    == table_mapper@.field_group),
            },
    {
        let groups = match self {
            ImportProfileDataSourceConfig::XmlDataSourceConfig { field_groups, .. } => field_groups,
            ImportProfileDataSourceConfig::DelimitedDataSourceConfig { field_groups, .. } => {
                field_groups
            },
        };
        let wanted = table_mapper.field_group().to_owned();
        let mut i: usize = 0;
        while i < groups.len()
            invariant
                i <= groups.len(),
                groups@ == self.groups_view(),
                wanted@ == table_mapper@.field_group,
                group_position(groups@, wanted@, 0) == group_position(groups@, wanted@, i as int),
            decreases groups.len() - i,
        {
            if groups[i].0 == wanted {
                return Ok(&groups[i].1);
            }
            i += 1;
        }
        Err(
            CreateDataSourceError::new(
                self.path(),
                CreateDataSourceErrorKind::UnknownFieldGroup(wanted),
            ),
        )
    }
}

} // verus!
