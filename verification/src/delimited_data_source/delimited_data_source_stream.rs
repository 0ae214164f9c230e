use crate::data_source::field_set::{index_set_get_index_of, set_items, FieldSet};
use crate::data_source::{
    DataSourceErrorIndex, DataSourceRecord, DataSourceRecordIndex, ReadRecordError, RecordView,
};
use crate::delimited_data_source::{
    build_reader, grown, header_names, reader_line, reader_line_of, reader_with, record_fields,
    settings_of, CreateDelimitedDataSourceError, ParseRecordError, ReadDelimitedDataSourceError,
    ReadOutcome, RecordBuffer,
};
use crate::import_profile::{DelimitedReaderConfig, Field};
use crate::text::{lemma_text_views_push, text_views};
use csv_core::Reader;
use vstd::prelude::*;

verus! {

/// What went wrong while a record was read.
#[derive(Debug)]
pub enum DelimitedReadRecordErrorKind {
    /// The file could not be read; the message of the system.
    FillBufferError(String),
    ParseRecordError(ParseRecordError),
}

/// An error in reading a delimited file, with the place.
#[derive(Debug)]
pub struct DelimitedReadRecordError {
    index: DataSourceErrorIndex,
    source: DelimitedReadRecordErrorKind,
}

impl DelimitedReadRecordError {
    pub closed spec fn source_view(&self) -> DelimitedReadRecordErrorKind {
        self.source
    }

    pub fn new(index: DataSourceErrorIndex, source: DelimitedReadRecordErrorKind) -> (r: Self)
        ensures
            r.index_view() == index,
            r.source_view() == source,
    {
        Self { index, source }
    }

    pub fn source(&self) -> (r: &DelimitedReadRecordErrorKind)
        ensures
            *r == self.source_view(),
    {
        &self.source
    }
}

impl ReadRecordError for DelimitedReadRecordError {
    closed spec fn index_view(&self) -> DataSourceErrorIndex {
        self.index
    }

    fn index(&self) -> (r: DataSourceErrorIndex) {
        self.index
    }
}

/// The number of the record after the one numbered `last`: records are
/// counted from 1.
pub open spec fn next_number(last: Option<u64>) -> u64 {
    match last {
        None => 1,
        Some(n) => if n < u64::MAX {
            (n + 1) as u64
        } else {
            u64::MAX
        },
    }
}

/// The last line that was read in full when the reader is on line `line`.
pub open spec fn line_before(line: u64) -> u64 {
    if line > 0 {
        (line - 1) as u64
    } else {
        0
    }
}

fn number_after(last: Option<u64>) -> (r: u64)
    ensures
        r == next_number(last),
{
    match last {
        None => 1,
        Some(n) => if n < u64::MAX {
            n + 1
        } else {
            u64::MAX
        },
    }
}

fn line_behind(line: u64) -> (r: u64)
    ensures
        r == line_before(line),
{
    if line > 0 {
        line - 1
    } else {
        0
    }
}

/// What a record that the reader has read completely gives: the record with
/// the next number, from the line it began on to the last line read; or,
/// where no record can be made of it, the error with that number.
pub fn complete_record(
    buffer: &RecordBuffer,
    field_names: &FieldSet,
    last_number: Option<u64>,
    line_start: u64,
    line: u64,
) -> (r: Result<DataSourceRecord, DelimitedReadRecordError>)
    requires
        set_items(*field_names).no_duplicates(),
    ensures
        match record_fields(set_items(*field_names), buffer.output_view(), buffer.ends_view()) {
            Ok(fields) => r matches Ok(record) && record@ == (RecordView {
                index: DataSourceRecordIndex {
                    record_number: next_number(last_number),
                    line_start,
                    line_end: line_before(line),
                },
                fields,
            }),
            Err(e) => r matches Err(x) && x.index_view() == (DataSourceErrorIndex {
                record_number: Some(next_number(last_number)),
                line_number: line_before(line),
            }) && x.source_view() == DelimitedReadRecordErrorKind::ParseRecordError(e),
        },
{
    let number = number_after(last_number);
    let line_end = line_behind(line);
    let index = DataSourceRecordIndex { record_number: number, line_start, line_end };
    match buffer.create_data_source_record(field_names, index) {
        Ok(record) => Ok(record),
        Err(e) => Err(
            DelimitedReadRecordError::new(
                DataSourceErrorIndex { record_number: Some(number), line_number: line_end },
                DelimitedReadRecordErrorKind::ParseRecordError(e),
            ),
        ),
    }
}

/// A delimited file whose header row is being read.
#[derive(Debug)]
pub struct DelimitedHeaderReader {
    reader: Reader,
    record_buffer: RecordBuffer,
}

/// How far the header has been read.
#[derive(Debug)]
pub enum HeaderStep {
    /// The header row has not ended: the reader wants more input.
    More(DelimitedHeaderReader),
    /// The header row was read.
    Done(DelimitedDataSource),
    Failed(ReadDelimitedDataSourceError),
}

/// Whether `step` is what the reader's answer makes of a header row, where
/// the buffers hold `output` and `ends` and have the given room, and the
/// reader, which is now `reader`, is on `line`. While the row has not ended
/// the reading goes on with what the buffers hold, with more room where the
/// reader asked for it. A row that has ended gives the source: its fields are
/// the names of the row, it has read no record, holds nothing of one, and
/// its first record begins on `line`. A row with a field that is no readable
/// text fails, and so does a file that ends before the row.
pub open spec fn header_stepped(
    reader: Reader,
    output: Seq<u8>,
    ends: Seq<usize>,
    output_capacity: int,
    ends_capacity: int,
    outcome: ReadOutcome,
    line: u64,
    step: HeaderStep,
) -> bool {
    match outcome {
        ReadOutcome::InputEmpty => step matches HeaderStep::More(next) && next.reader_view()
            == reader && next.output_view() == output && next.ends_view() == ends
            && next.output_capacity() == output_capacity && next.ends_capacity() == ends_capacity,
        ReadOutcome::OutputFull => step matches HeaderStep::More(next) && next.reader_view()
            == reader && next.output_view() == output && next.ends_view() == ends
            && next.output_capacity() == grown(output_capacity, output.len() as int)
            && next.ends_capacity() == ends_capacity,
        ReadOutcome::OutputEndsFull => step matches HeaderStep::More(next) && next.reader_view()
            == reader && next.output_view() == output && next.ends_view() == ends
            && next.output_capacity() == output_capacity && next.ends_capacity() == grown(
            ends_capacity,
            ends.len() as int,
        ),
        ReadOutcome::Record => match header_names(output, ends) {
            Some(names) => step matches HeaderStep::Done(source) && source.fields_view() == names
                && source.reader_view() == reader && source.record_number_view() is None
                && source.line_start_view() == line && source.output_view().len() == 0
                && source.ends_view().len() == 0 && source.output_capacity() == output_capacity
                && source.ends_capacity() == ends_capacity,
            None => step matches HeaderStep::Failed(e) && e is ParseHeadersError,
        },
        ReadOutcome::End => step matches HeaderStep::Failed(e) && e is NoHeaderRow,
    }
}

/// What the reader's answer makes of the header row that has been read into
/// `buffer`, where the reader is on `line`.
pub fn header_step(reader: Reader, buffer: RecordBuffer, outcome: ReadOutcome, line: u64) -> (r:
    HeaderStep)
    ensures
        header_stepped(
            reader,
            buffer.output_view(),
            buffer.ends_view(),
            buffer.output_capacity(),
            buffer.ends_capacity(),
            outcome,
            line,
            r,
        ),
{
    match outcome {
        ReadOutcome::InputEmpty => HeaderStep::More(
            DelimitedHeaderReader { reader, record_buffer: buffer },
        ),
        ReadOutcome::OutputFull => HeaderStep::More(
            DelimitedHeaderReader { reader, record_buffer: buffer.expand_output() },
        ),
        ReadOutcome::OutputEndsFull => HeaderStep::More(
            DelimitedHeaderReader { reader, record_buffer: buffer.expand_ends() },
        ),
        ReadOutcome::Record => match buffer.header() {
            Some(fields) => HeaderStep::Done(
                DelimitedDataSource {
                    fields,
                    reader,
                    record_buffer: buffer.clear(),
                    record_number: None,
                    line_start: line,
                },
            ),
            None => HeaderStep::Failed(ReadDelimitedDataSourceError::ParseHeadersError),
        },
        ReadOutcome::End => HeaderStep::Failed(ReadDelimitedDataSourceError::NoHeaderRow),
    }
}

impl DelimitedHeaderReader {
    /// The reader, as far as it has read.
    pub closed spec fn reader_view(&self) -> Reader {
        self.reader
    }

    /// The buffers that the header row is read into.
    pub closed spec fn buffer_view(&self) -> RecordBuffer {
        self.record_buffer
    }

    /// The bytes of the header row that were read so far.
    pub open spec fn output_view(&self) -> Seq<u8> {
        self.buffer_view().output_view()
    }

    /// The ends of the fields of the header row that were read so far.
    pub open spec fn ends_view(&self) -> Seq<usize> {
        self.buffer_view().ends_view()
    }

    /// The room for the bytes of the header row.
    pub open spec fn output_capacity(&self) -> int {
        self.buffer_view().output_capacity()
    }

    /// The room for the ends of the fields of the header row.
    pub open spec fn ends_capacity(&self) -> int {
        self.buffer_view().ends_capacity()
    }

    /// A reader for a file in the given form, with nothing read.
    pub fn new(config: DelimitedReaderConfig) -> (r: Result<
        DelimitedHeaderReader,
        ReadDelimitedDataSourceError,
    >)
        ensures
            match settings_of(config) {
                Err(e) => r matches Err(
                    ReadDelimitedDataSourceError::CreateDelimitedReaderError(x),
                ) && x == e,
                Ok(settings) => r matches Ok(reader) && reader.reader_view() == reader_with(
                    settings,
                ) && reader.output_view().len() == 0 && reader.ends_view().len() == 0
                    && reader.output_capacity() == 1024 && reader.ends_capacity() == 64,
            },
    {
        match build_reader(config) {
            Ok(reader) => Ok(DelimitedHeaderReader { reader, record_buffer: RecordBuffer::new() }),
            Err(e) => Err(ReadDelimitedDataSourceError::CreateDelimitedReaderError(e)),
        }
    }

    /// What the reader does with `input` when it reads on in the header row.
    pub open spec fn read_of(&self, input: Seq<u8>) -> (
        ReadOutcome,
        int,
        Seq<u8>,
        Seq<usize>,
        Reader,
    ) {
        self.buffer_view().read_by(self.reader_view(), input)
    }

    /// Reads on in `input`, the next bytes of the file; no bytes stand for
    /// its end. The number says how many of the bytes the reader read. What
    /// it wrote is added to what was held of the header row, and its answer
    /// decides as `header_stepped` says: while the row has not ended the
    /// reading goes on; when it ends, its fields are the names of the
    /// source; a row with a field that is no readable text fails, and so
    /// does a file that ends before the row.
    pub fn feed(self, input: &[u8]) -> (r: (usize, HeaderStep))
        ensures
            r.0 <= input@.len(),
            r.0 == self.read_of(input@).1,
            header_stepped(
                self.read_of(input@).4,
                self.output_view() + self.read_of(input@).2,
                self.ends_view() + self.read_of(input@).3,
                self.output_capacity(),
                self.ends_capacity(),
                self.read_of(input@).0,
                reader_line_of(self.read_of(input@).4),
                r.1,
            ),
            r.1 matches HeaderStep::More(next) ==> self.output_view().is_prefix_of(
                next.output_view(),
            ) && self.ends_view().is_prefix_of(next.ends_view()),
            r.1 matches HeaderStep::Done(source) ==> source.record_number_view() is None,
            r.1 matches HeaderStep::Failed(e) ==> e is NoHeaderRow || e is ParseHeadersError,
    {
        let DelimitedHeaderReader { mut reader, record_buffer } = self;
        let (record_buffer, outcome, consumed) = record_buffer.read(&mut reader, input);
        let line = reader_line(&reader);
        (consumed, header_step(reader, record_buffer, outcome, line))
    }
}

/// A delimited file whose header row has been read and whose records are
/// being read.
#[derive(Debug)]
pub struct DelimitedDataSource {
    fields: FieldSet,
    reader: Reader,
    record_buffer: RecordBuffer,
    record_number: Option<u64>,
    line_start: u64,
}

/// What reading on has given.
#[derive(Debug)]
pub enum DelimitedStep {
    /// The record has not ended: the reader wants more input.
    More,
    /// A record.
    Record(DataSourceRecord),
    /// A record of which no record could be made.
    Failed(DelimitedReadRecordError),
    /// The file has ended.
    End,
}

/// The names among the first `upto` required fields that the header lacks.
pub open spec fn missing_names(header: Seq<Seq<char>>, required: Seq<Field>, upto: int) -> Seq<
    Seq<char>,
>
    decreases upto,
{
    if upto <= 0 {
        Seq::empty()
    } else {
        let before = missing_names(header, required, upto - 1);
        if header.contains(required[upto - 1].name@) {
            before
        } else {
            before.push(required[upto - 1].name@)
        }
    }
}

/// Whether `source` and `step` are what the reader's answer makes of a
/// record, for a source with the fields `names` whose last record had the
/// number `record_number` and whose present record began on `line_start`.
/// The buffers hold `output` and `ends` and have the given room, and the
/// reader, which is now `reader`, is on `line`. While the record has not
/// ended, and when the file has ended, number and line stay and the reading
/// goes on with what the buffers hold, with more room where the reader
/// asked for it. A record that has ended gets the next number, whether a
/// record can be made of it or not; it reaches from `line_start` to the line
/// before `line`; the buffers are emptied, and the next record begins on
/// `line`.
pub open spec fn record_stepped(
    names: Seq<Seq<char>>,
    reader: Reader,
    output: Seq<u8>,
    ends: Seq<usize>,
    output_capacity: int,
    ends_capacity: int,
    record_number: Option<u64>,
    line_start: u64,
    outcome: ReadOutcome,
    line: u64,
    source: DelimitedDataSource,
    step: DelimitedStep,
) -> bool {
    &&& source.fields_view() == names
    &&& source.reader_view() == reader
    &&& match outcome {
        ReadOutcome::Record => {
            &&& source.record_number_view() == Some(next_number(record_number))
            &&& source.line_start_view() == line
            &&& source.output_view().len() == 0
            &&& source.ends_view().len() == 0
            &&& source.output_capacity() == output_capacity
            &&& source.ends_capacity() == ends_capacity
            &&& match record_fields(names, output, ends) {
                Ok(values) => step matches DelimitedStep::Record(record) && record@
                    == (RecordView {
                    index: DataSourceRecordIndex {
                        record_number: next_number(record_number),
                        line_start,
                        line_end: line_before(line),
                    },
                    fields: values,
                }),
                Err(e) => step matches DelimitedStep::Failed(x) && x.index_view()
                    == (DataSourceErrorIndex {
                    record_number: Some(next_number(record_number)),
                    line_number: line_before(line),
                }) && x.source_view() == DelimitedReadRecordErrorKind::ParseRecordError(e),
            }
        },
        _ => {
            &&& source.record_number_view() == record_number
            &&& source.line_start_view() == line_start
            &&& source.output_view() == output
            &&& source.ends_view() == ends
            &&& source.output_capacity() == if outcome is OutputFull {
                grown(output_capacity, output.len() as int)
            } else {
                output_capacity
            }
            &&& source.ends_capacity() == if outcome is OutputEndsFull {
                grown(ends_capacity, ends.len() as int)
            } else {
                ends_capacity
            }
            &&& if outcome is End {
                step is End
            } else {
                step is More
            }
        },
    }
}

/// What the reader's answer makes of the record that has been read into
/// `buffer`, for a source with the given fields whose last record had the
/// number `record_number` and whose present record began on `line_start`;
/// `line` is the line that the reader is on.
pub fn record_step(
    fields: FieldSet,
    reader: Reader,
    buffer: RecordBuffer,
    record_number: Option<u64>,
    line_start: u64,
    outcome: ReadOutcome,
    line: u64,
) -> (r: (DelimitedDataSource, DelimitedStep))
    requires
        set_items(fields).no_duplicates(),
    ensures
        record_stepped(
            set_items(fields),
            reader,
            buffer.output_view(),
            buffer.ends_view(),
            buffer.output_capacity(),
            buffer.ends_capacity(),
            record_number,
            line_start,
            outcome,
            line,
            r.0,
            r.1,
        ),
{
    match outcome {
        ReadOutcome::InputEmpty => (
            DelimitedDataSource { fields, reader, record_buffer: buffer, record_number, line_start },
            DelimitedStep::More,
        ),
        ReadOutcome::OutputFull => (
            DelimitedDataSource {
                fields,
                reader,
                record_buffer: buffer.expand_output(),
                record_number,
                line_start,
            },
            DelimitedStep::More,
        ),
        ReadOutcome::OutputEndsFull => (
            DelimitedDataSource {
                fields,
                reader,
                record_buffer: buffer.expand_ends(),
                record_number,
                line_start,
            },
            DelimitedStep::More,
        ),
        ReadOutcome::Record => {
            let result = complete_record(&buffer, &fields, record_number, line_start, line);
            let source = DelimitedDataSource {
                fields,
                reader,
                record_buffer: buffer.clear(),
                record_number: Some(number_after(record_number)),
                line_start: line,
            };
            match result {
                Ok(record) => (source, DelimitedStep::Record(record)),
                Err(e) => (source, DelimitedStep::Failed(e)),
            }
        },
        ReadOutcome::End => (
            DelimitedDataSource { fields, reader, record_buffer: buffer, record_number, line_start },
            DelimitedStep::End,
        ),
    }
}

impl DelimitedDataSource {
    #[verifier::type_invariant]
    pub closed spec fn inv(&self) -> bool {
        set_items(self.fields).no_duplicates()
    }

    /// The names of the fields, as the header row gives them.
    pub closed spec fn fields_view(&self) -> Seq<Seq<char>> {
        set_items(self.fields)
    }

    /// The reader, as far as it has read.
    pub closed spec fn reader_view(&self) -> Reader {
        self.reader
    }

    /// The buffers that the record is read into.
    pub closed spec fn buffer_view(&self) -> RecordBuffer {
        self.record_buffer
    }

    /// The bytes of the record that is being read.
    pub open spec fn output_view(&self) -> Seq<u8> {
        self.buffer_view().output_view()
    }

    /// The ends of the fields of the record that is being read.
    pub open spec fn ends_view(&self) -> Seq<usize> {
        self.buffer_view().ends_view()
    }

    /// The room for the bytes of a record.
    pub open spec fn output_capacity(&self) -> int {
        self.buffer_view().output_capacity()
    }

    /// The room for the ends of the fields of a record.
    pub open spec fn ends_capacity(&self) -> int {
        self.buffer_view().ends_capacity()
    }

    /// The number of the last record that was read.
    pub closed spec fn record_number_view(&self) -> Option<u64> {
        self.record_number
    }

    /// The line on which the record that is being read began.
    pub closed spec fn line_start_view(&self) -> u64 {
        self.line_start
    }

    pub fn fields(&self) -> (r: &FieldSet)
        ensures
            set_items(*r) == self.fields_view(),
    {
        &self.fields
    }

    pub fn record_number(&self) -> (r: Option<u64>)
        ensures
            r == self.record_number_view(),
    {
        self.record_number
    }

    /// The names of the fields among `required` that the header lacks.
    pub fn missing_fields(&self, required: &Vec<Field>) -> (r: Vec<String>)
        ensures
            text_views(r@) == missing_names(self.fields_view(), required@, required@.len() as int),
    {
        let ghost header = set_items(self.fields);
        let mut out: Vec<String> = Vec::new();
        let mut i: usize = 0;
        assert(text_views(out@) =~= missing_names(header, required@, 0));
        while i < required.len()
            invariant
                i <= required.len(),
                header == set_items(self.fields),
                text_views(out@) == missing_names(header, required@, i as int),
            decreases required.len() - i,
        {
            let name = &required[i].name;
            if index_set_get_index_of(&self.fields, name.as_str()).is_none() {
                let missing = name.clone();
                proof {
                    lemma_text_views_push(out@, missing);
                }
                out.push(missing);
            }
            i += 1;
        }
        out
    }

    /// The source itself if its header holds all fields of `required`; else
    /// the error that lists those that it lacks.
    pub fn with_required_fields(self, required: &Vec<Field>) -> (r: Result<
        DelimitedDataSource,
        CreateDelimitedDataSourceError,
    >)
        ensures
            match r {
                Ok(source) => missing_names(
                    self.fields_view(),
                    required@,
                    required@.len() as int,
                ).len() == 0 && source == self,
                Err(e) => e matches CreateDelimitedDataSourceError::MissingFields(names)
                    && names@.len() > 0 && text_views(names@) == missing_names(
                    self.fields_view(),
                    required@,
                    required@.len() as int,
                ),
            },
    {
        let missing = self.missing_fields(required);
        assert(text_views(missing@).len() == missing@.len());
        if missing.len() > 0 {
            Err(CreateDelimitedDataSourceError::MissingFields(missing))
        } else {
            Ok(self)
        }
    }

    /// What the reader does with `input` when it reads on in the record.
    pub open spec fn read_of(&self, input: Seq<u8>) -> (
        ReadOutcome,
        int,
        Seq<u8>,
        Seq<usize>,
        Reader,
    ) {
        self.buffer_view().read_by(self.reader_view(), input)
    }

    /// Reads on in `input`, the next bytes of the file; no bytes stand for
    /// its end. The number says how many of the bytes the reader read. What
    /// it wrote is added to what was held of the record, and its answer
    /// decides as `record_stepped` says. So each record that ends, whether a
    /// record can be made of it or not, gets the next number; until one ends
    /// the number stays, and what was read of the record is kept and added
    /// to.
    pub fn feed(self, input: &[u8]) -> (r: (DelimitedDataSource, usize, DelimitedStep))
        ensures
            r.1 <= input@.len(),
            r.1 == self.read_of(input@).1,
            record_stepped(
                self.fields_view(),
                self.read_of(input@).4,
                self.output_view() + self.read_of(input@).2,
                self.ends_view() + self.read_of(input@).3,
                self.output_capacity(),
                self.ends_capacity(),
                self.record_number_view(),
                self.line_start_view(),
                self.read_of(input@).0,
                reader_line_of(self.read_of(input@).4),
                r.0,
                r.2,
            ),
            r.0.fields_view() == self.fields_view(),
            match r.2 {
                DelimitedStep::More => {
                    &&& r.0.record_number_view() == self.record_number_view()
                    &&& r.0.line_start_view() == self.line_start_view()
                    &&& self.output_view().is_prefix_of(r.0.output_view())
                    &&& self.ends_view().is_prefix_of(r.0.ends_view())
                },
                DelimitedStep::End => {
                    &&& r.0.record_number_view() == self.record_number_view()
                    &&& r.0.line_start_view() == self.line_start_view()
                },
                DelimitedStep::Record(record) => {
                    &&& r.0.record_number_view() == Some(next_number(self.record_number_view()))
                    &&& record@.index.record_number == next_number(self.record_number_view())
                    &&& record@.index.line_start == self.line_start_view()
                    &&& record@.index.line_end == line_before(r.0.line_start_view())
                },
                DelimitedStep::Failed(e) => {
                    &&& r.0.record_number_view() == Some(next_number(self.record_number_view()))
                    &&& e.index_view() == (DataSourceErrorIndex {
                        record_number: Some(next_number(self.record_number_view())),
                        line_number: line_before(r.0.line_start_view()),
                    })
                    &&& e.source_view() is ParseRecordError
                },
            },
    {
        proof {
            use_type_invariant(&self);
        }
        let DelimitedDataSource { fields, mut reader, record_buffer, record_number, line_start } =
            self;
        let (record_buffer, outcome, consumed) = record_buffer.read(&mut reader, input);
        let line = reader_line(&reader);
        let (source, step) = record_step(
            fields,
            reader,
            record_buffer,
            record_number,
            line_start,
            outcome,
            line,
        );
        (source, consumed, step)
    }

    /// The error for a failure of the system to read the file.
    pub fn fill_error(&self, message: String) -> (r: DelimitedReadRecordError)
        ensures
            r.index_view().record_number == self.record_number_view(),
            r.source_view() == DelimitedReadRecordErrorKind::FillBufferError(message),
    {
        let line = reader_line(&self.reader);
        DelimitedReadRecordError::new(
            DataSourceErrorIndex {
                record_number: self.record_number,
                line_number: line_behind(line),
            },
            DelimitedReadRecordErrorKind::FillBufferError(message),
        )
    }
}

} // verus!
