pub mod delimited_data_source_stream;

use crate::data_source::field_set::{
    field_at, index_set_insert, index_set_len, index_set_new, lemma_push_distinct, set_items,
    FieldSet,
};
use crate::data_source::string_map::{first_pairs, pair_views};
use crate::data_source::{DataSourceRecord, DataSourceRecordIndex, RecordView};
use crate::import_profile::{DelimitedReaderConfig, Terminator};
use crate::text::{text_views, utf8_text};
use csv_core::{ReadRecordResult, Reader, ReaderBuilder};
use vstd::prelude::*;
use vstd::slice::slice_subrange;
use vstd::utf8::{decode_utf8, valid_utf8};

verus! {

#[verifier::external_type_specification]
#[verifier::external_body]
pub struct ExReader(Reader);

/// What the reader says after it was given input.
#[derive(Debug, Clone, Copy, PartialEq, Eq, Structural)]
pub enum ReadOutcome {
    /// The input was used up before the record ended.
    InputEmpty,
    /// The buffer for the fields is full.
    OutputFull,
    /// The buffer for the ends of the fields is full.
    OutputEndsFull,
    /// A record has ended.
    Record,
    /// There was no more input, and no record is left.
    End,
}

/// What a reader is built with: the bytes that part fields and records (a
/// line break of either kind where no terminator is given), the quote and
/// whether it is heeded, the bytes that open a comment and that escape a
/// quote, and whether a doubled quote stands for one.
#[derive(Debug, Clone, Copy, PartialEq, Eq)]
pub struct ReaderSettings {
    pub delimiter: u8,
    pub terminator: Option<u8>,
    pub quote: u8,
    pub quoting: bool,
    pub comment: Option<u8>,
    pub escape: Option<u8>,
    pub double_quote: bool,
}

/// The reader that is built with the given settings, before it has read
/// anything.
pub uninterp spec fn reader_built(
    delimiter: u8,
    terminator: Option<u8>,
    quote: u8,
    quoting: bool,
    comment: Option<u8>,
    escape: Option<u8>,
    double_quote: bool,
) -> Reader;

/// `ReaderBuilder::build` after the setters of the builder: the reader with
/// the given delimiter, terminator (a line break of either kind where none
/// is given), quote, comment and escape bytes. It is the same for the same
/// settings.
#[verifier::external_body]
pub(crate) fn build_csv_reader(
    delimiter: u8,
    terminator: Option<u8>,
    quote: u8,
    quoting: bool,
    comment: Option<u8>,
    escape: Option<u8>,
    double_quote: bool,
) -> (r: Reader)
    ensures
        r == reader_built(delimiter, terminator, quote, quoting, comment, escape, double_quote),
{
    let terminator = match terminator {
        Some(byte) => csv_core::Terminator::Any(byte),
        None => csv_core::Terminator::CRLF,
    };
    ReaderBuilder::new().delimiter(delimiter).terminator(terminator).quote(quote).quoting(
        quoting,
    ).comment(comment).escape(escape).double_quote(double_quote).build()
}

/// What a reader does with input when it has room for `output_room` bytes
/// and `ends_room` ends of fields: what it answers, how many bytes of the
/// input it reads, the bytes and the ends that it writes, and the reader
/// that it is afterwards.
pub uninterp spec fn reader_read(
    reader: Reader,
    input: Seq<u8>,
    output_room: int,
    ends_room: int,
) -> (ReadOutcome, int, Seq<u8>, Seq<usize>, Reader);

/// The number of the line that a reader is on.
pub uninterp spec fn reader_line_of(reader: Reader) -> u64;

/// `Reader::read_record` on the free ends of the two buffers: `output` from
/// `output_from` on, `ends` from `ends_from` on. The three numbers say how
/// many bytes of the input were read, how many bytes were written to
/// `output`, and how many ends were written to `ends`; none exceeds what was
/// there. The buffers keep their lengths and what they held before the free
/// ends. Answer, numbers, what is written and the reader afterwards depend
/// on the reader, the input and the room alone.
#[verifier::external_body]
pub(crate) fn read_record(
    reader: &mut Reader,
    input: &[u8],
    output: &mut Vec<u8>,
    output_from: usize,
    ends: &mut Vec<usize>,
    ends_from: usize,
) -> (r: (ReadOutcome, usize, usize, usize))
    requires
        output_from <= old(output)@.len(),
        ends_from <= old(ends)@.len(),
    ensures
        r.1 <= input@.len(),
        r.2 <= old(output)@.len() - output_from,
        r.3 <= old(ends)@.len() - ends_from,
        final(output)@.len() == old(output)@.len(),
        final(ends)@.len() == old(ends)@.len(),
        final(output)@.take(output_from as int) == old(output)@.take(output_from as int),
        final(ends)@.take(ends_from as int) == old(ends)@.take(ends_from as int),
        r.0 == reader_read(
            *old(reader),
            input@,
            old(output)@.len() - output_from,
            old(ends)@.len() - ends_from,
        ).0,
        r.1 == reader_read(
            *old(reader),
            input@,
            old(output)@.len() - output_from,
            old(ends)@.len() - ends_from,
        ).1,
        final(output)@.subrange(output_from as int, output_from + r.2) == reader_read(
            *old(reader),
            input@,
            old(output)@.len() - output_from,
            old(ends)@.len() - ends_from,
        ).2,
        final(ends)@.subrange(ends_from as int, ends_from + r.3) == reader_read(
            *old(reader),
            input@,
            old(output)@.len() - output_from,
            old(ends)@.len() - ends_from,
        ).3,
        *final(reader) == reader_read(
            *old(reader),
            input@,
            old(output)@.len() - output_from,
            old(ends)@.len() - ends_from,
        ).4,
{
    let (result, nin, nout, nend) = reader.read_record(
        input,
        &mut output[output_from..],
        &mut ends[ends_from..],
    );
    let outcome = match result {
        ReadRecordResult::InputEmpty => ReadOutcome::InputEmpty,
        ReadRecordResult::OutputFull => ReadOutcome::OutputFull,
        ReadRecordResult::OutputEndsFull => ReadOutcome::OutputEndsFull,
        ReadRecordResult::Record => ReadOutcome::Record,
        ReadRecordResult::End => ReadOutcome::End,
    };
    (outcome, nin, nout, nend)
}

/// `Reader::line`: the number of the line that the reader is on.
#[verifier::external_body]
pub(crate) fn reader_line(reader: &Reader) -> (r: u64)
    ensures
        r == reader_line_of(*reader),
{
    reader.line()
}

/// Why no reader could be built: the character named does not fit a byte.
#[derive(Debug, Clone, Copy, PartialEq, Eq, Structural)]
pub enum BuildDelimitedReaderError {
    Delimiter,
    Terminator,
    Quote,
    Comment,
    Escape,
}

/// Why the header of a delimited file could not be read.
#[derive(Debug)]
pub enum ReadDelimitedDataSourceError {
    CreateDelimitedReaderError(BuildDelimitedReaderError),
    /// The file could not be read; the message of the system.
    FillBufferError(String),
    /// The header is no UTF-8 text.
    ParseHeadersError,
    /// The file ended before a header was read.
    NoHeaderRow,
}

/// Why no delimited data source could be made.
#[derive(Debug)]
pub enum CreateDelimitedDataSourceError {
    /// The file could not be opened; the message of the system.
    OpenFileError(String),
    ReadError(ReadDelimitedDataSourceError),
    /// The header lacks these fields.
    MissingFields(Vec<String>),
}

/// Why a record could not be made of what the reader read.
#[derive(Debug, Clone, Copy, PartialEq, Eq, Structural)]
pub enum ParseRecordError {
    /// A field is no UTF-8 text.
    FromUtf8Error,
    TooFewFields,
    TooManyFields,
}

/// Whether the character fits a byte.
pub open spec fn fits_byte(c: char) -> bool {
    (c as u32) < 256
}

fn byte_of(c: char) -> (r: Option<u8>)
    ensures
        match r {
            Some(b) => fits_byte(c) && b == byte_value(c),
            None => !fits_byte(c),
        },
{
    let code = c as u32;
    if code < 256 {
        Some(code as u8)
    } else {
        None
    }
}

/// What is wrong with a reader configuration, if anything: the first of
/// delimiter, terminator, quote, comment and escape that does not fit a byte.
pub open spec fn reader_config_failure(config: DelimitedReaderConfig) -> Option<
    BuildDelimitedReaderError,
> {
    match config {
        DelimitedReaderConfig::Csv => None,
        DelimitedReaderConfig::Txt => None,
        DelimitedReaderConfig::Custom(c) => if !fits_byte(c.delimiter) {
            Some(BuildDelimitedReaderError::Delimiter)
        } else if c.terminator matches Terminator::Any(t) && !fits_byte(t) {
            Some(BuildDelimitedReaderError::Terminator)
        } else if !fits_byte(c.quote) {
            Some(BuildDelimitedReaderError::Quote)
        } else if c.comment matches Some(x) && !fits_byte(x) {
            Some(BuildDelimitedReaderError::Comment)
        } else if c.escape matches Some(x) && !fits_byte(x) {
            Some(BuildDelimitedReaderError::Escape)
        } else {
            None
        },
    }
}

/// The byte of a character that fits one.
pub open spec fn byte_value(c: char) -> u8 {
    (c as u32) as u8
}

/// The byte of a character that may be left out.
pub open spec fn optional_byte(c: Option<char>) -> Option<u8> {
    match c {
        Some(x) => Some(byte_value(x)),
        None => None,
    }
}

/// The settings of comma-separated or tab-separated text: the delimiter,
/// records that end at a line break, fields in double quotes, a doubled
/// quote for a quote, no comments and no escape.
pub open spec fn plain_settings(delimiter: u8) -> ReaderSettings {
    ReaderSettings {
        delimiter,
        terminator: None,
        quote: 34,
        quoting: true,
        comment: None,
        escape: None,
        double_quote: true,
    }
}

/// The settings that a configuration asks for: a comma for `Csv`, a tab for
/// `Txt`, and for a custom configuration each character as its byte; or what
/// is wrong with the configuration.
pub open spec fn settings_of(config: DelimitedReaderConfig) -> Result<
    ReaderSettings,
    BuildDelimitedReaderError,
> {
    match reader_config_failure(config) {
        Some(e) => Err(e),
        None => Ok(
            match config {
                DelimitedReaderConfig::Csv => plain_settings(44),
                DelimitedReaderConfig::Txt => plain_settings(9),
                DelimitedReaderConfig::Custom(c) => ReaderSettings {
                    delimiter: byte_value(c.delimiter),
                    terminator: match c.terminator {
                        Terminator::CRLF => None,
                        Terminator::Any(t) => Some(byte_value(t)),
                    },
                    quote: byte_value(c.quote),
                    quoting: c.quoting,
                    comment: optional_byte(c.comment),
                    escape: optional_byte(c.escape),
                    double_quote: c.double_quote,
                },
            },
        ),
    }
}

/// The reader that has the given settings and has read nothing.
pub open spec fn reader_with(settings: ReaderSettings) -> Reader {
    reader_built(
        settings.delimiter,
        settings.terminator,
        settings.quote,
        settings.quoting,
        settings.comment,
        settings.escape,
        settings.double_quote,
    )
}

/// The settings that a configuration asks for.
pub fn reader_settings(config: DelimitedReaderConfig) -> (r: Result<
    ReaderSettings,
    BuildDelimitedReaderError,
>)
    ensures
        r == settings_of(config),
{
    match config {
        DelimitedReaderConfig::Csv => Ok(
            ReaderSettings {
                delimiter: 44,
                terminator: None,
                quote: 34,
                quoting: true,
                comment: None,
                escape: None,
                double_quote: true,
            },
        ),
        DelimitedReaderConfig::Txt => Ok(
            ReaderSettings {
                delimiter: 9,
                terminator: None,
                quote: 34,
                quoting: true,
                comment: None,
                escape: None,
                double_quote: true,
            },
        ),
        DelimitedReaderConfig::Custom(c) => {
            let delimiter = match byte_of(c.delimiter) {
                Some(b) => b,
                None => {
                    return Err(BuildDelimitedReaderError::Delimiter);
                },
            };
            let terminator = match c.terminator {
                Terminator::CRLF => None,
                Terminator::Any(t) => match byte_of(t) {
                    Some(b) => Some(b),
                    None => {
                        return Err(BuildDelimitedReaderError::Terminator);
                    },
                },
            };
            let quote = match byte_of(c.quote) {
                Some(b) => b,
                None => {
                    return Err(BuildDelimitedReaderError::Quote);
                },
            };
            let comment = match c.comment {
                None => None,
                Some(x) => match byte_of(x) {
                    Some(b) => Some(b),
                    None => {
                        return Err(BuildDelimitedReaderError::Comment);
                    },
                },
            };
            let escape = match c.escape {
                None => None,
                Some(x) => match byte_of(x) {
                    Some(b) => Some(b),
                    None => {
                        return Err(BuildDelimitedReaderError::Escape);
                    },
                },
            };
            Ok(
                ReaderSettings {
                    delimiter,
                    terminator,
                    quote,
                    quoting: c.quoting,
                    comment,
                    escape,
                    double_quote: c.double_quote,
                },
            )
        },
    }
}

/// The reader that a configuration asks for: the one with the settings of
/// the configuration.
pub fn build_reader(config: DelimitedReaderConfig) -> (r: Result<Reader, BuildDelimitedReaderError>)
    ensures
        match settings_of(config) {
            Ok(settings) => r matches Ok(reader) && reader == reader_with(settings),
            Err(e) => r matches Err(x) && x == e,
        },
{
    match reader_settings(config) {
        Ok(settings) => Ok(
            build_csv_reader(
                settings.delimiter,
                settings.terminator,
                settings.quote,
                settings.quoting,
                settings.comment,
                settings.escape,
                settings.double_quote,
            ),
        ),
        Err(e) => Err(e),
    }
}

/// Where the field at `i` begins: where the one before it ends.
pub open spec fn field_start(ends: Seq<usize>, i: int) -> int {
    if i == 0 {
        0
    } else {
        ends[i - 1] as int
    }
}

/// Whether the bytes of the field at `i` can be taken and are UTF-8 text.
pub open spec fn field_readable(output: Seq<u8>, ends: Seq<usize>, i: int) -> bool {
    &&& field_start(ends, i) <= ends[i] <= output.len()
    &&& valid_utf8(output.subrange(field_start(ends, i), ends[i] as int))
}

/// The text of the field at `i`.
pub open spec fn field_text(output: Seq<u8>, ends: Seq<usize>, i: int) -> Seq<char> {
    decode_utf8(output.subrange(field_start(ends, i), ends[i] as int))
}

/// The texts of the first `upto` fields, if each of them is readable.
pub open spec fn decoded_fields(output: Seq<u8>, ends: Seq<usize>, upto: int) -> Option<
    Seq<Seq<char>>,
>
    decreases upto,
{
    if upto <= 0 {
        Some(Seq::empty())
    } else {
        match decoded_fields(output, ends, upto - 1) {
            None => None,
            Some(before) => if field_readable(output, ends, upto - 1) {
                Some(before.push(field_text(output, ends, upto - 1)))
            } else {
                None
            },
        }
    }
}

/// The first `upto` names without those that occurred before.
pub open spec fn distinct_names(names: Seq<Seq<char>>, upto: int) -> Seq<Seq<char>>
    decreases upto,
{
    if upto <= 0 {
        Seq::empty()
    } else {
        let before = distinct_names(names, upto - 1);
        if before.contains(names[upto - 1]) {
            before
        } else {
            before.push(names[upto - 1])
        }
    }
}

/// The names of the fields that a header row gives: its fields, each name
/// once. None where a field is no readable text.
pub open spec fn header_names(output: Seq<u8>, ends: Seq<usize>) -> Option<Seq<Seq<char>>> {
    match decoded_fields(output, ends, ends.len() as int) {
        None => None,
        Some(names) => Some(distinct_names(names, names.len() as int)),
    }
}

/// The fields of a record: as many as there are names, each readable, by
/// name in the order of the names.
pub open spec fn record_fields(names: Seq<Seq<char>>, output: Seq<u8>, ends: Seq<usize>) -> Result<
    Seq<(Seq<char>, Seq<char>)>,
    ParseRecordError,
> {
    if ends.len() < names.len() {
        Err(ParseRecordError::TooFewFields)
    } else {
        match decoded_fields(output, ends, ends.len() as int) {
            None => Err(ParseRecordError::FromUtf8Error),
            Some(values) => if ends.len() > names.len() {
                Err(ParseRecordError::TooManyFields)
            } else {
                Ok(Seq::new(names.len(), |i: int| (names[i], values[i])))
            },
        }
    }
}

/// There are as many texts as fields.
pub proof fn lemma_decoded_len(output: Seq<u8>, ends: Seq<usize>, upto: int)
    requires
        0 <= upto,
    ensures
        decoded_fields(output, ends, upto) matches Some(texts) ==> texts.len() == upto,
    decreases upto,
{
    if upto > 0 {
        lemma_decoded_len(output, ends, upto - 1);
    }
}

/// A field that is not readable makes all fields unreadable.
pub proof fn lemma_decoded_fails(output: Seq<u8>, ends: Seq<usize>, i: int, upto: int)
    requires
        0 <= i < upto,
        decoded_fields(output, ends, i + 1) is None,
    ensures
        decoded_fields(output, ends, upto) is None,
    decreases upto - i,
{
    if i + 1 < upto {
        lemma_decoded_fails(output, ends, i, upto - 1);
    }
}

/// The texts of the fields that the reader wrote.
pub fn decode_fields(output: &[u8], ends: &[usize]) -> (r: Option<Vec<String>>)
    ensures
        match decoded_fields(output@, ends@, ends@.len() as int) {
            Some(texts) => r matches Some(v) && text_views(v@) == texts,
            None => r is None,
        },
{
    let mut out: Vec<String> = Vec::new();
    let mut start: usize = 0;
    let mut i: usize = 0;
    assert(text_views(out@) =~= Seq::<Seq<char>>::empty());
    while i < ends.len()
        invariant
            i <= ends.len(),
            start == field_start(ends@, i as int),
            decoded_fields(output@, ends@, i as int) == Some(text_views(out@)),
        decreases ends.len() - i,
    {
        let end = ends[i];
        if !(start <= end && end <= output.len()) {
            proof {
                lemma_decoded_fails(output@, ends@, i as int, ends@.len() as int);
            }
            return None;
        }
        match utf8_text(slice_subrange(output, start, end)) {
            Some(text) => {
                let owned = text.to_owned();
                proof {
                    crate::text::lemma_text_views_push(out@, owned);
                }
                out.push(owned);
            },
            None => {
                proof {
                    lemma_decoded_fails(output@, ends@, i as int, ends@.len() as int);
                }
                return None;
            },
        }
        start = end;
        i += 1;
    }
    Some(out)
}

/// The names of the fields that a header row gives.
pub fn header_from_parts(output: &[u8], ends: &[usize]) -> (r: Option<FieldSet>)
    ensures
        match header_names(output@, ends@) {
            Some(names) => r matches Some(v) && set_items(v) == names && set_items(
                v,
            ).no_duplicates(),
            None => r is None,
        },
{
    let all = match decode_fields(output, ends) {
        Some(all) => all,
        None => {
            return None;
        },
    };
    let ghost names = text_views(all@);
    let mut out = index_set_new();
    let mut i: usize = 0;
    assert(set_items(out) =~= distinct_names(names, 0));
    while i < all.len()
        invariant
            i <= all.len(),
            names == text_views(all@),
            set_items(out) == distinct_names(names, i as int),
            set_items(out).no_duplicates(),
        decreases all.len() - i,
    {
        assert(names[i as int] == all@[i as int]@);
        proof {
            if !set_items(out).contains(names[i as int]) {
                lemma_push_distinct(set_items(out), names[i as int]);
            }
        }
        index_set_insert(&mut out, all[i].clone());
        i += 1;
    }
    Some(out)
}

/// The fields of a record with the given names, from what the reader wrote.
pub fn fields_from_parts(field_names: &FieldSet, output: &[u8], ends: &[usize]) -> (r: Result<
    Vec<(String, String)>,
    ParseRecordError,
>)
    ensures
        match record_fields(set_items(*field_names), output@, ends@) {
            Ok(fields) => r matches Ok(v) && pair_views(v@) == fields,
            Err(e) => r matches Err(x) && x == e,
        },
{
    let count = index_set_len(field_names);
    if ends.len() < count {
        return Err(ParseRecordError::TooFewFields);
    }
    let values = match decode_fields(output, ends) {
        Some(values) => values,
        None => {
            return Err(ParseRecordError::FromUtf8Error);
        },
    };
    proof {
        lemma_decoded_len(output@, ends@, ends@.len() as int);
        assert(text_views(values@).len() == values@.len());
    }
    if ends.len() > count {
        return Err(ParseRecordError::TooManyFields);
    }
    let ghost names = set_items(*field_names);
    let ghost texts = text_views(values@);
    let mut out: Vec<(String, String)> = Vec::new();
    let mut i: usize = 0;
    while i < count
        invariant
            i <= count,
            count == names.len(),
            count == values@.len(),
            names == set_items(*field_names),
            texts == text_views(values@),
            out@.len() == i,
            forall|k: int| 0 <= k < i ==> (#[trigger] out@[k]).0@ == names[k] && out@[k].1@ == texts[k],
        decreases count - i,
    {
        assert(texts[i as int] == values@[i as int]@);
        out.push((field_at(field_names, i).clone(), values[i].clone()));
        i += 1;
    }
    assert(pair_views(out@) =~= Seq::new(names.len(), |i: int| (names[i], texts[i])));
    Ok(out)
}

/// Pairs with distinct keys are all first of their key.
pub proof fn lemma_first_pairs_distinct(pairs: Seq<(Seq<char>, Seq<char>)>, upto: int)
    requires
        0 <= upto <= pairs.len(),
        forall|a: int, b: int| 0 <= a < b < pairs.len() ==> pairs[a].0 != pairs[b].0,
    ensures
        first_pairs(pairs, upto) == pairs.take(upto),
    decreases upto,
{
    if upto > 0 {
        lemma_first_pairs_distinct(pairs, upto - 1);
        let before = first_pairs(pairs, upto - 1);
        assert(before == pairs.take(upto - 1));
        assert forall|j: int| 0 <= j < before.len() implies #[trigger] before[j].0 != pairs[upto
            - 1].0 by {
            assert(before[j] == pairs[j]);
        }
        assert(pairs.take(upto) =~= before.push(pairs[upto - 1]));
    }
}

/// The buffers that the reader writes a record to: the bytes of its fields,
/// one behind the other, and the position at which each field ends. Of both
/// the part that is in use is counted.
#[derive(Debug)]
pub struct RecordBuffer {
    output_buffer: Vec<u8>,
    output_used: usize,
    ends_buffer: Vec<usize>,
    ends_used: usize,
}

/// The length that a buffer of the length `len`, of which `used` is in use,
/// grows to: twice what is in use, and at least one more than it has.
pub open spec fn grown(len: int, used: int) -> int {
    let target = if used * 2 > len {
        used * 2
    } else {
        len + 1
    };
    if target > usize::MAX {
        usize::MAX as int
    } else {
        target
    }
}

fn grown_length(len: usize, used: usize) -> (r: usize)
    ensures
        r == grown(len as int, used as int),
{
    let doubled = match used.checked_mul(2) {
        Some(d) => d,
        None => usize::MAX,
    };
    if doubled > len {
        doubled
    } else {
        match len.checked_add(1) {
            Some(n) => n,
            None => usize::MAX,
        }
    }
}

impl RecordBuffer {
    #[verifier::type_invariant]
    pub closed spec fn inv(&self) -> bool {
        self.output_used <= self.output_buffer@.len() && self.ends_used <= self.ends_buffer@.len()
    }

    /// The bytes of the fields read so far.
    pub closed spec fn output_view(&self) -> Seq<u8> {
        self.output_buffer@.take(self.output_used as int)
    }

    /// The ends of the fields read so far.
    pub closed spec fn ends_view(&self) -> Seq<usize> {
        self.ends_buffer@.take(self.ends_used as int)
    }

    pub closed spec fn output_capacity(&self) -> int {
        self.output_buffer@.len() as int
    }

    pub closed spec fn ends_capacity(&self) -> int {
        self.ends_buffer@.len() as int
    }

    /// Buffers for 1024 bytes and 64 fields, with nothing in use.
    pub fn new() -> (r: RecordBuffer)
        ensures
            r.output_view().len() == 0,
            r.ends_view().len() == 0,
            r.output_capacity() == 1024,
            r.ends_capacity() == 64,
    {
        RecordBuffer {
            output_buffer: vec![0u8; 1024],
            output_used: 0,
            ends_buffer: vec![0usize; 64],
            ends_used: 0,
        }
    }

    /// Makes room for more bytes; what is in use stays.
    pub fn expand_output(self) -> (r: RecordBuffer)
        ensures
            r.output_view() == self.output_view(),
            r.ends_view() == self.ends_view(),
            r.ends_capacity() == self.ends_capacity(),
            r.output_capacity() == grown(self.output_capacity(), self.output_view().len() as int),
    {
        proof {
            use_type_invariant(&self);
        }
        let RecordBuffer { mut output_buffer, output_used, ends_buffer, ends_used } = self;
        let target = grown_length(output_buffer.len(), output_used);
        let ghost before = output_buffer@;
        output_buffer.resize(target, 0);
        proof {
            if target > before.len() {
                assert(output_buffer@.take(output_used as int) =~= output_buffer@.subrange(
                    0,
                    before.len() as int,
                ).take(output_used as int));
            }
        }
        RecordBuffer { output_buffer, output_used, ends_buffer, ends_used }
    }

    /// Makes room for more fields; what is in use stays.
    pub fn expand_ends(self) -> (r: RecordBuffer)
        ensures
            r.output_view() == self.output_view(),
            r.ends_view() == self.ends_view(),
            r.output_capacity() == self.output_capacity(),
            r.ends_capacity() == grown(self.ends_capacity(), self.ends_view().len() as int),
    {
        proof {
            use_type_invariant(&self);
        }
        let RecordBuffer { output_buffer, output_used, mut ends_buffer, ends_used } = self;
        let target = grown_length(ends_buffer.len(), ends_used);
        let ghost before = ends_buffer@;
        ends_buffer.resize(target, 0);
        proof {
            if target > before.len() {
                assert(ends_buffer@.take(ends_used as int) =~= ends_buffer@.subrange(
                    0,
                    before.len() as int,
                ).take(ends_used as int));
            }
        }
        RecordBuffer { output_buffer, output_used, ends_buffer, ends_used }
    }

    /// Empties the buffers; they keep their room.
    pub fn clear(self) -> (r: RecordBuffer)
        ensures
            r.output_view().len() == 0,
            r.ends_view().len() == 0,
            r.output_capacity() == self.output_capacity(),
            r.ends_capacity() == self.ends_capacity(),
    {
        let RecordBuffer { output_buffer, ends_buffer, .. } = self;
        RecordBuffer { output_buffer, output_used: 0, ends_buffer, ends_used: 0 }
    }

    /// What `reader` does with `input` when it writes to the free ends of
    /// these buffers.
    pub open spec fn read_by(&self, reader: Reader, input: Seq<u8>) -> (
        ReadOutcome,
        int,
        Seq<u8>,
        Seq<usize>,
        Reader,
    ) {
        reader_read(
            reader,
            input,
            self.output_capacity() - self.output_view().len(),
            self.ends_capacity() - self.ends_view().len(),
        )
    }

    /// Lets the reader go on with `input`: what it writes is added to what
    /// the buffers hold. The result tells what the reader said and how much
    /// of the input it read.
    pub fn read(self, reader: &mut Reader, input: &[u8]) -> (r: (RecordBuffer, ReadOutcome, usize))
        ensures
            r.2 <= input@.len(),
            r.0.output_capacity() == self.output_capacity(),
            r.0.ends_capacity() == self.ends_capacity(),
            self.output_view().is_prefix_of(r.0.output_view()),
            self.ends_view().is_prefix_of(r.0.ends_view()),
            r.1 == self.read_by(*old(reader), input@).0,
            r.2 == self.read_by(*old(reader), input@).1,
            r.0.output_view() == self.output_view() + self.read_by(*old(reader), input@).2,
            r.0.ends_view() == self.ends_view() + self.read_by(*old(reader), input@).3,
            *final(reader) == self.read_by(*old(reader), input@).4,
    {
        proof {
            use_type_invariant(&self);
        }
        let RecordBuffer { mut output_buffer, output_used, mut ends_buffer, ends_used } = self;
        let ghost old_output = output_buffer@;
        let ghost old_ends = ends_buffer@;
        let (outcome, nin, nout, nend) = read_record(
            reader,
            input,
            &mut output_buffer,
            output_used,
            &mut ends_buffer,
            ends_used,
        );
        let output_capacity = output_buffer.len();
        let ends_capacity = ends_buffer.len();
        assert(output_used + nout <= output_capacity);
        assert(ends_used + nend <= ends_capacity);
        let buffer = RecordBuffer {
            output_buffer,
            output_used: output_used + nout,
            ends_buffer,
            ends_used: ends_used + nend,
        };
        proof {
            assert(old_output.take(output_used as int) =~= buffer.output_buffer@.take(
                output_used as int,
            ));
            assert(old_ends.take(ends_used as int) =~= buffer.ends_buffer@.take(ends_used as int));
            assert(buffer.output_view().take(output_used as int) =~= buffer.output_buffer@.take(
                output_used as int,
            ));
            assert(buffer.ends_view().take(ends_used as int) =~= buffer.ends_buffer@.take(
                ends_used as int,
            ));
            assert(buffer.output_view() =~= self.output_view() + buffer.output_buffer@.subrange(
                output_used as int,
                output_used + nout,
            ));
            assert(buffer.ends_view() =~= self.ends_view() + buffer.ends_buffer@.subrange(
                ends_used as int,
                ends_used + nend,
            ));
        }
        (buffer, outcome, nin)
    }

    /// The names that a header row in the buffers gives.
    pub fn header(&self) -> (r: Option<FieldSet>)
        ensures
            match header_names(self.output_view(), self.ends_view()) {
                Some(names) => r matches Some(v) && set_items(v) == names && set_items(
                    v,
                ).no_duplicates(),
                None => r is None,
            },
    {
        proof {
            use_type_invariant(self);
        }
        header_from_parts(
            slice_subrange(self.output_buffer.as_slice(), 0, self.output_used),
            slice_subrange(self.ends_buffer.as_slice(), 0, self.ends_used),
        )
    }

    /// Makes a record of what the buffers hold.
    pub fn create_data_source_record(
        &self,
        field_names: &FieldSet,
        index: DataSourceRecordIndex,
    ) -> (r: Result<DataSourceRecord, ParseRecordError>)
        requires
            set_items(*field_names).no_duplicates(),
        ensures
            match record_fields(set_items(*field_names), self.output_view(), self.ends_view()) {
                Ok(fields) => r matches Ok(record) && record@ == (RecordView { index, fields }),
                Err(e) => r matches Err(x) && x == e,
            },
    {
        proof {
            use_type_invariant(self);
        }
        let result = fields_from_parts(
            field_names,
            slice_subrange(self.output_buffer.as_slice(), 0, self.output_used),
            slice_subrange(self.ends_buffer.as_slice(), 0, self.ends_used),
        );
        match result {
            Ok(fields) => {
                proof {
                    let pairs = pair_views(fields@);
                    let names = set_items(*field_names);
                    assert forall|a: int, b: int| 0 <= a < b < pairs.len() implies pairs[a].0
                        != pairs[b].0 by {
                        assert(pairs[a].0 == names[a] && pairs[b].0 == names[b]);
                    }
                    lemma_first_pairs_distinct(pairs, pairs.len() as int);
                    assert(pairs.take(pairs.len() as int) == pairs);
                }
                Ok(DataSourceRecord::from_iter(&fields, index))
            },
            Err(e) => Err(e),
        }
    }
}

} // verus!
