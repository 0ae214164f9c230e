use crate::column_graph::CreateColumnGraphError;
use crate::data_source::DataSourceRecordIndex;
use crate::delimited_data_source::delimited_data_source_stream::DelimitedReadRecordError;
use crate::identifier::{TableIdentifier, TableName};
use crate::import_options::ImportOptions;
use crate::import_profile::{CreateDataSourceError, ImportProfile};
use crate::insert_processor::{
    CreateInsertProcessorError, FinalizeInsertProcessorError, ProcessRecordError,
};
use crate::merge_processor::MergeProcessorError;
use crate::preprocess::PreprocessReadRecordError;
use crate::table_mapper::{column_views, ColumnView, Table, TableMapperColumn, TableMapperView};
use crate::temporary_table::CreateTemporaryTableError;
use crate::update_processor::UpdateProcessorError;
use crate::xml_data_source::xml_data_source_stream::XmlReadRecordError;
use vstd::prelude::*;

verus! {

/// A record that gave no row, with its place.
#[derive(Debug)]
pub struct ExecuteRecordError {
    index: DataSourceRecordIndex,
    source: ProcessRecordError,
}

impl ExecuteRecordError {
    pub closed spec fn index_view(&self) -> DataSourceRecordIndex {
        self.index
    }

    pub closed spec fn source_view(&self) -> ProcessRecordError {
        self.source
    }

    pub fn new(index: DataSourceRecordIndex, source: ProcessRecordError) -> (r: Self)
        ensures
            r.index_view() == index,
            r.source_view() == source,
    {
        Self { index, source }
    }

    pub fn index(&self) -> (r: DataSourceRecordIndex)
        ensures
            r == self.index_view(),
    {
        self.index
    }

    pub fn source(&self) -> (r: &ProcessRecordError)
        ensures
            *r == self.source_view(),
    {
        &self.source
    }
}

/// A record that could not be read, by the kind of its source.
#[derive(Debug)]
pub enum ReadRecordFailure {
    Delimited(DelimitedReadRecordError),
    Xml(XmlReadRecordError),
    Preprocess(PreprocessReadRecordError),
}

/// Why a table mapper could not be run.
#[derive(Debug)]
pub enum ExecuteTableMapperError {
    CreateInsertProcessor(CreateInsertProcessorError),
    ReadRecordFailed(ReadRecordFailure),
    ExecuteRecordFailed(ExecuteRecordError),
    FinalizeInsertProcessor(FinalizeInsertProcessorError),
    UpdateProcessor(UpdateProcessorError),
    MergeProcessor(MergeProcessorError),
}

/// Why an import failed.
#[derive(Debug)]
pub enum ImportExecutorErrorKind {
    /// The columns of the table could not be had; the message of the server.
    TableMetadataRetrievalFailed(TableIdentifier, String),
    CreateColumnGraph(CreateColumnGraphError),
    CreateDataSource(CreateDataSourceError),
    CreateTemporaryTable(CreateTemporaryTableError),
    ExecuteTableMapper(ExecuteTableMapperError),
    /// The staging table could not be dropped; the message of the server.
    FinalizeTemporaryTable(String),
}

/// The failure of an import, with the name of its profile.
#[derive(Debug)]
pub struct ImportExecutorError {
    import_profile_name: String,
    source: ImportExecutorErrorKind,
}

impl ImportExecutorError {
    pub closed spec fn name_view(&self) -> Seq<char> {
        self.import_profile_name@
    }

    pub closed spec fn source_view(&self) -> ImportExecutorErrorKind {
        self.source
    }

    pub fn new(import_profile: &ImportProfile, source: ImportExecutorErrorKind) -> (r: Self)
        ensures
            r.name_view() == import_profile.name_view(),
            r.source_view() == source,
    {
        Self { import_profile_name: import_profile.name().to_owned(), source }
    }

    pub fn import_profile_name(&self) -> (r: &str)
        ensures
            r@ == self.name_view(),
    {
        self.import_profile_name.as_str()
    }

    pub fn source(&self) -> (r: &ImportExecutorErrorKind)
        ensures
            *r == self.source_view(),
    {
        &self.source
    }
}

/// What the bulk insert learned of the record that it asked for.
#[derive(Debug)]
pub enum InsertEvent {
    /// The source has no more records.
    End,
    /// The source could not read its next record.
    ReadFailed(ReadRecordFailure),
    /// The preprocess function dropped the record.
    Skipped,
    /// The preprocess function failed on the record.
    PreprocessFailed(PreprocessReadRecordError),
    /// The record at this place gave no row, or its row could not be sent.
    RowFailed(DataSourceRecordIndex, ProcessRecordError),
    /// The row of the record was sent.
    Sent,
}

/// What the bulk insert does next.
#[derive(Debug)]
pub enum InsertAction {
    /// It asks the source for the next record.
    ReadNext,
    /// It closes: the source has given all its records.
    Close,
    /// It closes and reports the failure; no further record is read.
    CloseWith(ExecuteTableMapperError),
}

/// What the bulk insert does after an event: it reads on after a row that
/// was sent and after a record that was dropped, closes at the end of the
/// source, and stops at the first failure, which it reports by its kind.
pub fn insert_step(event: InsertEvent) -> (r: InsertAction)
    ensures
        match event {
            InsertEvent::End => r is Close,
            InsertEvent::Sent => r is ReadNext,
            InsertEvent::Skipped => r is ReadNext,
            InsertEvent::ReadFailed(failure) => r == InsertAction::CloseWith(
                ExecuteTableMapperError::ReadRecordFailed(failure),
            ),
            InsertEvent::PreprocessFailed(e) => r == InsertAction::CloseWith(
                ExecuteTableMapperError::ReadRecordFailed(ReadRecordFailure::Preprocess(e)),
            ),
            InsertEvent::RowFailed(index, e) => r matches InsertAction::CloseWith(
                ExecuteTableMapperError::ExecuteRecordFailed(x),
            ) && x.index_view() == index && x.source_view() == e,
        },
{
    match event {
        InsertEvent::End => InsertAction::Close,
        InsertEvent::Sent => InsertAction::ReadNext,
        InsertEvent::Skipped => InsertAction::ReadNext,
        InsertEvent::ReadFailed(failure) => InsertAction::CloseWith(
            ExecuteTableMapperError::ReadRecordFailed(failure),
        ),
        InsertEvent::PreprocessFailed(e) => InsertAction::CloseWith(
            ExecuteTableMapperError::ReadRecordFailed(ReadRecordFailure::Preprocess(e)),
        ),
        InsertEvent::RowFailed(index, e) => InsertAction::CloseWith(
            ExecuteTableMapperError::ExecuteRecordFailed(ExecuteRecordError::new(index, e)),
        ),
    }
}

/// What the bulk insert of a mapper comes to once it is closed: the number
/// of rows, unless a record failed or the closing did. The failure of a
/// record comes first.
pub fn insert_result(
    insert_error: Option<ExecuteTableMapperError>,
    finalized: Result<u64, FinalizeInsertProcessorError>,
) -> (r: Result<u64, ExecuteTableMapperError>)
    ensures
        match insert_error {
            Some(e) => r == Err::<u64, ExecuteTableMapperError>(e),
            None => match finalized {
                Ok(rows) => r == Ok::<u64, ExecuteTableMapperError>(rows),
                Err(e) => r == Err::<u64, ExecuteTableMapperError>(
                    ExecuteTableMapperError::FinalizeInsertProcessor(e),
                ),
            },
        },
{
    match insert_error {
        Some(e) => Err(e),
        None => match finalized {
            Ok(rows) => Ok(rows),
            Err(e) => Err(ExecuteTableMapperError::FinalizeInsertProcessor(e)),
        },
    }
}

/// The tables of the lookups among the first `upto` columns.
pub open spec fn lookup_tables(columns: Seq<ColumnView>, upto: int) -> Seq<TableName>
    decreases upto,
{
    if upto <= 0 {
        Seq::empty()
    } else {
        let before = lookup_tables(columns, upto - 1);
        match columns[upto - 1] {
            ColumnView::Lookup(l) => before.push(l.table),
            _ => before,
        }
    }
}

/// The tables that the first `upto` mappers speak of: of each mapper the
/// tables of its lookups, then its own.
pub open spec fn mentioned_tables(mappers: Seq<TableMapperView>, upto: int) -> Seq<TableName>
    decreases upto,
{
    if upto <= 0 {
        Seq::empty()
    } else {
        let m = mappers[upto - 1];
        mentioned_tables(mappers, upto - 1) + lookup_tables(m.columns, m.columns.len() as int)
            + seq![m.table]
    }
}

/// The first `upto` tables without those that occurred before.
pub open spec fn distinct_tables(tables: Seq<TableName>, upto: int) -> Seq<TableName>
    decreases upto,
{
    if upto <= 0 {
        Seq::empty()
    } else {
        let before = distinct_tables(tables, upto - 1);
        if before.contains(tables[upto - 1]) {
            before
        } else {
            before.push(tables[upto - 1])
        }
    }
}

/// The views of a list of tables.
pub open spec fn table_names(tables: Seq<TableIdentifier>) -> Seq<TableName> {
    Seq::new(tables.len(), |i: int| tables[i]@)
}

fn push_table(all: &mut Vec<TableIdentifier>, table: &TableIdentifier)
    ensures
        table_names(final(all)@) == table_names(old(all)@).push(table@),
{
    all.push(table.clone());
    assert(table_names(all@) =~= table_names(old(all)@).push(table@));
}

/// Every table that the profile speaks of, each once: the tables whose
/// columns the import needs to know.
pub fn collect_table_names(import_profile: &ImportProfile) -> (r: Vec<TableIdentifier>)
    ensures
        ({
            let all = mentioned_tables(
                import_profile.mappers_view(),
                import_profile.mappers_view().len() as int,
            );
            table_names(r@) == distinct_tables(all, all.len() as int)
        }),
        table_names(r@).no_duplicates(),
{
    let mappers = import_profile.table_mappers();
    let ghost views = import_profile.mappers_view();
    let mut all: Vec<TableIdentifier> = Vec::new();
    let mut i: usize = 0;
    assert(table_names(all@) =~= mentioned_tables(views, 0));
    assert(views.len() == mappers@.len());
    while i < mappers.len()
        invariant
            i <= mappers.len(),
            views == crate::import_profile::mapper_views(mappers@),
            table_names(all@) == mentioned_tables(views, i as int),
        decreases mappers.len() - i,
    {
        let mapper = &mappers[i];
        assert(views[i as int] == mapper@);
        let columns = mapper.columns();
        let ghost before = table_names(all@);
        let ghost cviews = mapper@.columns;
        let mut k: usize = 0;
        assert(before + lookup_tables(cviews, 0) =~= before);
        while k < columns.len()
            invariant
                k <= columns.len(),
                cviews == column_views(columns@),
                table_names(all@) == before + lookup_tables(cviews, k as int),
            decreases columns.len() - k,
        {
            assert(cviews[k as int] == columns@[k as int]@);
            match &columns[k] {
                TableMapperColumn::Lookup(lookup) => {
                    let ghost so_far = lookup_tables(cviews, k as int);
                    push_table(&mut all, Table::identifier(lookup));
                    assert((before + so_far).push(lookup@.table) =~= before + so_far.push(
                        lookup@.table,
                    ));
                },
                _ => {},
            }
            k += 1;
        }
        assert(cviews.len() == columns@.len());
        let ghost with_lookups = table_names(all@);
        push_table(&mut all, Table::identifier(mapper));
        assert(with_lookups.push(mapper@.table) =~= with_lookups + seq![mapper@.table]);
        i += 1;
    }
    let ghost names = table_names(all@);
    let mut out: Vec<TableIdentifier> = Vec::new();
    let mut i: usize = 0;
    assert(table_names(out@) =~= distinct_tables(names, 0));
    assert(names.len() == all@.len());
    while i < all.len()
        invariant
            i <= all.len(),
            names == table_names(all@),
            table_names(out@) == distinct_tables(names, i as int),
            table_names(out@).no_duplicates(),
        decreases all.len() - i,
    {
        assert(names[i as int] == all@[i as int]@);
        let ghost before = table_names(out@);
        let mut found = false;
        let mut k: usize = 0;
        while k < out.len()
            invariant
                k <= out.len(),
                i < all.len(),
                before == table_names(out@),
                found == before.take(k as int).contains(all@[i as int]@),
            decreases out.len() - k,
        {
            proof {
                let wanted = all@[i as int]@;
                let head = before.take(k as int);
                let now = before.take(k + 1);
                assert(before[k as int] == out@[k as int]@);
                assert(now =~= head.push(before[k as int]));
                if head.contains(wanted) {
                    let w = head.index_of(wanted);
                    assert(now[w] == wanted);
                }
                if now.contains(wanted) && before[k as int] != wanted {
                    let w = now.index_of(wanted);
                    assert(head[w] == wanted);
                }
                if before[k as int] == wanted {
                    assert(now[k as int] == wanted);
                }
            }
            if out[k] == all[i] {
                found = true;
            }
            k += 1;
        }
        proof {
            assert(before.len() == out@.len());
            assert(before.take(out@.len() as int) == before);
        }
        if !found {
            let ghost wanted = all@[i as int]@;
            push_table(&mut out, &all[i]);
            proof {
                assert forall|a: int, b: int|
                    0 <= a < before.len() + 1 && 0 <= b < before.len() + 1 && a
                        != b implies before.push(wanted)[a] != before.push(wanted)[b] by {
                    if a < before.len() && b < before.len() {
                    } else if a < before.len() {
                        assert(before.contains(before[a]));
                    } else {
                        assert(before.contains(before[b]));
                    }
                }
            }
        }
        i += 1;
    }
    out
}

/// Where the run of a table mapper stands, once its staging table is there:
/// in the bulk insert of the first group, in the update of a later group, in
/// the merge, in the dropping of the staging table, or at its end.
#[derive(Debug, Clone, Copy, PartialEq, Eq, Structural)]
pub enum RunPhase {
    Insert,
    Update(usize),
    Merge,
    Drop,
    Finished,
}

/// What is to be done next in the run of a table mapper.
#[derive(Debug, Clone, Copy, PartialEq, Eq, Structural)]
pub enum RunAction {
    /// Insert the records into the first group of columns.
    BulkInsert,
    /// Fill the lookups of the group.
    Update(usize),
    /// Merge the staging table into the target table.
    Merge,
    /// Drop the staging table.
    DropStaging,
    /// Nothing: the run has ended.
    Finish,
}

/// The run of a table mapper as far as its course goes.
#[derive(Debug, Clone, Copy, PartialEq, Eq, Structural)]
pub struct RunState {
    pub phase: RunPhase,
    /// The number of groups of the column graph.
    pub groups: usize,
    pub no_merge: bool,
    pub no_drop: bool,
    /// Whether a step has failed.
    pub failed: bool,
}

/// The end of every run: the staging table is dropped unless the options
/// keep it.
pub open spec fn drop_or_finish(run: RunState) -> (RunState, RunAction) {
    if run.no_drop {
        (RunState { phase: RunPhase::Finished, ..run }, RunAction::Finish)
    } else {
        (RunState { phase: RunPhase::Drop, ..run }, RunAction::DropStaging)
    }
}

/// What follows the last group: the merge, unless the options leave it out.
pub open spec fn merge_or_drop(run: RunState) -> (RunState, RunAction) {
    if run.no_merge {
        drop_or_finish(run)
    } else {
        (RunState { phase: RunPhase::Merge, ..run }, RunAction::Merge)
    }
}

/// What follows the group `group`: the next group, or what follows the last.
pub open spec fn after_group(run: RunState, group: usize) -> (RunState, RunAction) {
    if group < usize::MAX && group + 1 < run.groups {
        (
            RunState { phase: RunPhase::Update((group + 1) as usize), ..run },
            RunAction::Update((group + 1) as usize),
        )
    } else {
        merge_or_drop(run)
    }
}

/// How a run begins: with the bulk insert, if the graph has a group.
pub open spec fn run_start(groups: usize, no_merge: bool, no_drop: bool) -> (RunState, RunAction) {
    let run = RunState { phase: RunPhase::Insert, groups, no_merge, no_drop, failed: false };
    if groups > 0 {
        (run, RunAction::BulkInsert)
    } else {
        merge_or_drop(run)
    }
}

/// How a run goes on when the step that was to be done has succeeded
/// (`ok`) or failed. Phases follow one another in their order; a failure
/// leads straight to the end of the run, where the staging table is dropped
/// unless the options keep it.
pub open spec fn run_step(run: RunState, ok: bool) -> (RunState, RunAction) {
    match run.phase {
        RunPhase::Finished => (run, RunAction::Finish),
        RunPhase::Drop => (
            RunState { phase: RunPhase::Finished, failed: run.failed || !ok, ..run },
            RunAction::Finish,
        ),
        RunPhase::Insert => if ok {
            after_group(run, 0)
        } else {
            drop_or_finish(RunState { failed: true, ..run })
        },
        RunPhase::Update(group) => if ok {
            after_group(run, group)
        } else {
            drop_or_finish(RunState { failed: true, ..run })
        },
        RunPhase::Merge => if ok {
            drop_or_finish(run)
        } else {
            drop_or_finish(RunState { failed: true, ..run })
        },
    }
}

/// The actions of a run that goes on from `run` while the steps succeed or
/// fail as `outcomes` says, up to the end of the run.
pub open spec fn run_actions(run: RunState, outcomes: Seq<bool>) -> Seq<RunAction>
    decreases outcomes.len(),
{
    if outcomes.len() == 0 || run.phase is Finished {
        Seq::empty()
    } else {
        let next = run_step(run, outcomes[0]);
        seq![next.1] + run_actions(next.0, outcomes.drop_first())
    }
}

/// How often the staging table is dropped among the actions.
pub open spec fn drops(actions: Seq<RunAction>) -> nat
    decreases actions.len(),
{
    if actions.len() == 0 {
        0
    } else {
        drops(actions.drop_last()) + if actions.last() is DropStaging {
            1nat
        } else {
            0nat
        }
    }
}

pub proof fn lemma_drops_prepend(action: RunAction, rest: Seq<RunAction>)
    ensures
        drops(seq![action] + rest) == drops(rest) + if action is DropStaging {
            1nat
        } else {
            0nat
        },
    decreases rest.len(),
{
    let all = seq![action] + rest;
    if rest.len() == 0 {
        assert(all.drop_last() =~= Seq::<RunAction>::empty());
        assert(drops(all.drop_last()) == 0);
    } else {
        assert(all.drop_last() =~= seq![action] + rest.drop_last());
        lemma_drops_prepend(action, rest.drop_last());
    }
}

/// How often the staging table is still to be dropped in a run that stands
/// at `run`.
pub open spec fn drops_ahead(run: RunState) -> nat {
    if run.no_drop || run.phase is Drop || run.phase is Finished {
        0
    } else {
        1
    }
}

/// A run that goes on to its end drops the staging table as often as is
/// still to be done: once, whether steps fail or not, unless the options
/// keep the table or it was dropped already.
pub proof fn lemma_run_drops(run: RunState, outcomes: Seq<bool>)
    requires
        !(run.phase is Finished),
        run_actions(run, outcomes).len() > 0,
        run_actions(run, outcomes).last() is Finish,
    ensures
        drops(run_actions(run, outcomes)) == drops_ahead(run),
    decreases outcomes.len(),
{
    let next = run_step(run, outcomes[0]);
    let rest = run_actions(next.0, outcomes.drop_first());
    lemma_drops_prepend(next.1, rest);
    if rest.len() > 0 {
        assert((seq![next.1] + rest).last() == rest.last());
        lemma_run_drops(next.0, outcomes.drop_first());
    } else {
        assert(seq![next.1] + rest =~= seq![next.1]);
        assert(next.1 is Finish);
    }
}

/// From its start to its end a run drops the staging table exactly once,
/// whether a step fails or not, unless the options keep the table; then it
/// never drops it.
pub proof fn lemma_cleanup(groups: usize, no_merge: bool, no_drop: bool, outcomes: Seq<bool>)
    requires
        ({
            let start = run_start(groups, no_merge, no_drop);
            let all = seq![start.1] + run_actions(start.0, outcomes);
            all.last() is Finish
        }),
    ensures
        ({
            let start = run_start(groups, no_merge, no_drop);
            let all = seq![start.1] + run_actions(start.0, outcomes);
            drops(all) == if no_drop {
                0nat
            } else {
                1nat
            }
        }),
{
    let start = run_start(groups, no_merge, no_drop);
    let rest = run_actions(start.0, outcomes);
    lemma_drops_prepend(start.1, rest);
    if rest.len() > 0 {
        assert((seq![start.1] + rest).last() == rest.last());
        lemma_run_drops(start.0, outcomes);
    } else {
        assert(seq![start.1] + rest =~= seq![start.1]);
    }
}

/// The run of one table mapper, from the moment its staging table is there.
#[derive(Debug)]
pub struct MapperRun {
    state: RunState,
    failure: Option<ImportExecutorErrorKind>,
}

impl View for MapperRun {
    type V = RunState;

    closed spec fn view(&self) -> RunState {
        self.state
    }
}

impl MapperRun {
    /// The first failure of the run, if a step has failed.
    pub closed spec fn failure_view(&self) -> Option<ImportExecutorErrorKind> {
        self.failure
    }

    #[verifier::type_invariant]
    pub closed spec fn inv(&self) -> bool {
        self.state.failed == self.failure is Some
    }

    /// Begins the run for a graph of `groups` groups, and tells what is to be
    /// done first.
    pub fn start(groups: usize, import_options: &ImportOptions) -> (r: (MapperRun, RunAction))
        ensures
            (r.0@, r.1) == run_start(groups, import_options.no_merge, import_options.no_drop),
            r.0.failure_view() is None,
    {
        let run = RunState {
            phase: RunPhase::Insert,
            groups,
            no_merge: import_options.no_merge,
            no_drop: import_options.no_drop,
            failed: false,
        };
        let (state, action) = if groups > 0 {
            (run, RunAction::BulkInsert)
        } else {
            Self::merge_or_drop(run)
        };
        (MapperRun { state, failure: None }, action)
    }

    fn drop_or_finish(run: RunState) -> (r: (RunState, RunAction))
        ensures
            r == drop_or_finish(run),
    {
        if run.no_drop {
            (RunState { phase: RunPhase::Finished, ..run }, RunAction::Finish)
        } else {
            (RunState { phase: RunPhase::Drop, ..run }, RunAction::DropStaging)
        }
    }

    fn merge_or_drop(run: RunState) -> (r: (RunState, RunAction))
        ensures
            r == merge_or_drop(run),
    {
        if run.no_merge {
            Self::drop_or_finish(run)
        } else {
            (RunState { phase: RunPhase::Merge, ..run }, RunAction::Merge)
        }
    }

    fn after_group(run: RunState, group: usize) -> (r: (RunState, RunAction))
        ensures
            r == after_group(run, group),
    {
        if group < usize::MAX && group + 1 < run.groups {
            (RunState { phase: RunPhase::Update(group + 1), ..run }, RunAction::Update(group + 1))
        } else {
            Self::merge_or_drop(run)
        }
    }

    /// Takes note of how the step that was to be done has ended, and tells
    /// what is to be done next. The first failure is kept.
    pub fn next(self, outcome: Result<(), ImportExecutorErrorKind>) -> (r: (MapperRun, RunAction))
        ensures
            (r.0@, r.1) == run_step(self@, outcome is Ok),
            r.0.failure_view() == (if self@.phase is Finished {
                self.failure_view()
            } else {
                match self.failure_view() {
                    Some(e) => Some(e),
                    None => match outcome {
                        Ok(_) => None,
                        Err(e) => Some(e),
                    },
                }
            }),
    {
        proof {
            use_type_invariant(&self);
        }
        let MapperRun { state, failure } = self;
        let ok = outcome.is_ok();
        match state.phase {
            RunPhase::Finished => (MapperRun { state, failure }, RunAction::Finish),
            _ => {
                let failure = match failure {
                    Some(e) => Some(e),
                    None => match outcome {
                        Ok(_) => None,
                        Err(e) => Some(e),
                    },
                };
                let failed = state.failed || !ok;
                let (state, action) = match state.phase {
                    RunPhase::Drop => (
                        RunState { phase: RunPhase::Finished, failed, ..state },
                        RunAction::Finish,
                    ),
                    RunPhase::Insert => if ok {
                        Self::after_group(state, 0)
                    } else {
                        Self::drop_or_finish(RunState { failed: true, ..state })
                    },
                    RunPhase::Update(group) => if ok {
                        Self::after_group(state, group)
                    } else {
                        Self::drop_or_finish(RunState { failed: true, ..state })
                    },
                    RunPhase::Merge => if ok {
                        Self::drop_or_finish(state)
                    } else {
                        Self::drop_or_finish(RunState { failed: true, ..state })
                    },
                    RunPhase::Finished => (state, RunAction::Finish),
                };
                (MapperRun { state, failure }, action)
            },
        }
    }

    /// What the run has come to: its first failure, if a step has failed.
    pub fn finish(self) -> (r: Result<(), ImportExecutorErrorKind>)
        ensures
            match self.failure_view() {
                Some(e) => r == Err::<(), ImportExecutorErrorKind>(e),
                None => r is Ok,
            },
    {
        match self.failure {
            Some(e) => Err(e),
            None => Ok(()),
        }
    }
}

} // verus!
