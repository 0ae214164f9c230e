use crate::data_source::string_map::first_pairs;
use crate::data_source::{
    DataSourceErrorIndex, DataSourceRecord, DataSourceRecordIndex, ReadRecordError, RecordView,
};
use crate::delimited_data_source::delimited_data_source_stream::next_number;
use crate::text::count_byte;
use crate::xml_data_source::name_position;
use vstd::prelude::*;
use vstd::utf8::{decode_utf8, valid_utf8};

verus! {

/// What the XML reader has found next in the document. `content` is what the
/// document holds of it: of a tag what stands between the angle brackets.
#[derive(Debug)]
pub enum XmlEvent {
    /// A start tag; `local_name` is its name without a prefix.
    Start { local_name: Vec<u8>, content: Vec<u8> },
    End { content: Vec<u8> },
    /// A tag that is start and end at once.
    Empty { content: Vec<u8> },
    Text { content: Vec<u8> },
    CData { content: Vec<u8> },
    /// A reference to a general entity; `decoded` is its content as text, if
    /// it can be decoded.
    GeneralRef { content: Vec<u8>, decoded: Option<String> },
    /// A comment, a declaration, a processing instruction or a document type.
    Other { content: Vec<u8> },
    Eof,
}

impl XmlEvent {
    /// What the document holds of the event.
    pub open spec fn content(&self) -> Seq<u8> {
        match self {
            XmlEvent::Start { content, .. } => content@,
            XmlEvent::End { content } => content@,
            XmlEvent::Empty { content } => content@,
            XmlEvent::Text { content } => content@,
            XmlEvent::CData { content } => content@,
            XmlEvent::GeneralRef { content, .. } => content@,
            XmlEvent::Other { content } => content@,
            XmlEvent::Eof => Seq::empty(),
        }
    }
}

/// What went wrong while a record was read.
#[derive(Debug)]
pub enum XmlReadRecordErrorKind {
    /// The reader failed; its message.
    XmlError(String),
    /// A reference could not be decoded.
    XmlDecodingError,
    /// An element that the selector does not lead through.
    UnexpectedStartTag(String),
    /// An element of a record that is none of its fields.
    UnknownField(String),
    /// The document holds bytes that are no UTF-8 text.
    Utf8Error,
}

pub enum XmlFailure {
    XmlError(Seq<char>),
    XmlDecodingError,
    UnexpectedStartTag(Seq<char>),
    UnknownField(Seq<char>),
    Utf8Error,
}

impl View for XmlReadRecordErrorKind {
    type V = XmlFailure;

    open spec fn view(&self) -> XmlFailure {
        match self {
            XmlReadRecordErrorKind::XmlError(m) => XmlFailure::XmlError(m@),
            XmlReadRecordErrorKind::XmlDecodingError => XmlFailure::XmlDecodingError,
            XmlReadRecordErrorKind::UnexpectedStartTag(n) => XmlFailure::UnexpectedStartTag(n@),
            XmlReadRecordErrorKind::UnknownField(n) => XmlFailure::UnknownField(n@),
            XmlReadRecordErrorKind::Utf8Error => XmlFailure::Utf8Error,
        }
    }
}

/// An error in reading an XML document, with the place.
#[derive(Debug)]
pub struct XmlReadRecordError {
    index: DataSourceErrorIndex,
    source: XmlReadRecordErrorKind,
}

impl XmlReadRecordError {
    pub closed spec fn source_view(&self) -> XmlFailure {
        self.source@
    }

    pub fn new(index: DataSourceErrorIndex, source: XmlReadRecordErrorKind) -> (r: Self)
        ensures
            r.index_view() == index,
            r.source_view() == source@,
    {
        Self { index, source }
    }

    pub fn source(&self) -> (r: &XmlReadRecordErrorKind)
        ensures
            r@ == self.source_view(),
    {
        &self.source
    }
}

impl ReadRecordError for XmlReadRecordError {
    closed spec fn index_view(&self) -> DataSourceErrorIndex {
        self.index
    }

    fn index(&self) -> (r: DataSourceErrorIndex) {
        self.index
    }
}

/// What a source knows of where it stands in its document.
pub struct XmlState {
    /// How many elements are open.
    pub depth: usize,
    /// The number of the last record.
    pub record_number: Option<u64>,
    /// The number of line feeds read.
    pub line_number: u64,
    /// The line on which the record that is being read began.
    pub line_start: u64,
    /// The fields of that record that have ended.
    pub pairs: Seq<(Seq<char>, Seq<char>)>,
    /// The text read since the last field ended.
    pub value: Seq<char>,
    /// The position of the field that is open.
    pub field: Option<usize>,
}

/// What an event has given.
pub enum XmlOutcome {
    More,
    Record(RecordView),
    Failed(DataSourceErrorIndex, XmlFailure),
    End,
}

/// Where a source stands before it has read anything.
pub open spec fn initial_state() -> XmlState {
    XmlState {
        depth: 0,
        record_number: None,
        line_number: 0,
        line_start: 0,
        pairs: Seq::empty(),
        value: Seq::empty(),
        field: None,
    }
}

/// A count of lines that stops at the greatest number.
pub open spec fn lines_after(line: u64, more: nat) -> u64 {
    if line + more > u64::MAX {
        u64::MAX
    } else {
        (line + more) as u64
    }
}

/// The state with `text` added to the text of the open field.
pub open spec fn with_text(s: XmlState, text: Seq<char>) -> XmlState {
    XmlState { value: s.value + text, ..s }
}

/// The text of `content` between `open` and `close`, added to the text of
/// the open field. Where the content is no UTF-8 text, only `open` is added
/// and the event fails.
pub open spec fn append_markup(
    s: XmlState,
    at: DataSourceErrorIndex,
    open: Seq<char>,
    content: Seq<u8>,
    close: Seq<char>,
) -> (XmlState, XmlOutcome) {
    if valid_utf8(content) {
        (with_text(s, open + decode_utf8(content) + close), XmlOutcome::More)
    } else {
        (with_text(s, open), XmlOutcome::Failed(at, XmlFailure::Utf8Error))
    }
}

/// What a start tag does. Down to the depth of the selector the tag must be
/// the one that the selector names there; the tag at that depth begins a
/// record. One level deeper the tag opens the field of its name. Deeper
/// still the tag is part of the text of the open field.
pub open spec fn start_step(
    selector: Seq<Seq<char>>,
    fields: Seq<Seq<char>>,
    s: XmlState,
    at: DataSourceErrorIndex,
    local_name: Seq<u8>,
    content: Seq<u8>,
) -> (XmlState, XmlOutcome) {
    let depth = if s.depth < usize::MAX {
        (s.depth + 1) as usize
    } else {
        s.depth
    };
    let deeper = XmlState { depth, ..s };
    if depth <= selector.len() {
        let begun = XmlState {
            line_start: if depth == selector.len() {
                lines_after(s.line_number, 1)
            } else {
                s.line_start
            },
            ..deeper
        };
        if !valid_utf8(local_name) {
            (begun, XmlOutcome::Failed(at, XmlFailure::Utf8Error))
        } else if decode_utf8(local_name) != selector[depth - 1] {
            (
                begun,
                XmlOutcome::Failed(at, XmlFailure::UnexpectedStartTag(decode_utf8(local_name))),
            )
        } else {
            (begun, XmlOutcome::More)
        }
    } else if depth - selector.len() == 1 {
        if !valid_utf8(local_name) {
            (deeper, XmlOutcome::Failed(at, XmlFailure::Utf8Error))
        } else {
            match name_position(fields, decode_utf8(local_name), 0) {
                Some(i) => (XmlState { field: Some(i as usize), ..deeper }, XmlOutcome::More),
                None => (
                    deeper,
                    XmlOutcome::Failed(at, XmlFailure::UnknownField(decode_utf8(local_name))),
                ),
            }
        }
    } else {
        append_markup(deeper, at, "<"@, content, ">"@)
    }
}

/// What an end tag does. Below the fields the tag is part of the text of the
/// open field. The end of a field adds the field with its text to the
/// record. The end of the record gives the record, with the next number, and
/// a clean slate.
pub open spec fn end_step(
    selector: Seq<Seq<char>>,
    fields: Seq<Seq<char>>,
    s: XmlState,
    at: DataSourceErrorIndex,
    content: Seq<u8>,
) -> (XmlState, XmlOutcome) {
    let depth = if s.depth > 0 {
        (s.depth - 1) as usize
    } else {
        0usize
    };
    let higher = XmlState { depth, ..s };
    if depth > selector.len() {
        append_markup(higher, at, "</"@, content, ">"@)
    } else if depth == selector.len() {
        match s.field {
            Some(i) => (
                XmlState {
                    pairs: s.pairs.push((fields[i as int], s.value)),
                    value: Seq::empty(),
                    field: None,
                    ..higher
                },
                XmlOutcome::More,
            ),
            None => (higher, XmlOutcome::More),
        }
    } else if depth + 1 == selector.len() {
        (
            XmlState {
                record_number: Some(next_number(s.record_number)),
                line_start: 0,
                pairs: Seq::empty(),
                value: Seq::empty(),
                field: None,
                ..higher
            },
            XmlOutcome::Record(
                RecordView {
                    index: DataSourceRecordIndex {
                        record_number: next_number(s.record_number),
                        line_start: s.line_start,
                        line_end: lines_after(s.line_number, 1),
                    },
                    fields: first_pairs(s.pairs, s.pairs.len() as int),
                },
            ),
        )
    } else {
        (higher, XmlOutcome::More)
    }
}

/// What an event does to a source and what it gives. The lines of the event
/// are counted first; a failure is placed on the line after them.
pub open spec fn xml_step(
    selector: Seq<Seq<char>>,
    fields: Seq<Seq<char>>,
    before: XmlState,
    event: XmlEvent,
) -> (XmlState, XmlOutcome) {
    let s = XmlState {
        line_number: lines_after(before.line_number, count_byte(event.content(), 10)),
        ..before
    };
    let at = DataSourceErrorIndex {
        record_number: s.record_number,
        line_number: lines_after(s.line_number, 1),
    };
    match event {
        XmlEvent::Start { local_name, content } => start_step(
            selector,
            fields,
            s,
            at,
            local_name@,
            content@,
        ),
        XmlEvent::End { content } => end_step(selector, fields, s, at, content@),
        XmlEvent::Text { content } => if s.field is Some {
            append_markup(s, at, Seq::empty(), content@, Seq::empty())
        } else {
            (s, XmlOutcome::More)
        },
        XmlEvent::Empty { content } => if s.field is Some {
            append_markup(s, at, "<"@, content@, "/>"@)
        } else {
            (s, XmlOutcome::More)
        },
        XmlEvent::GeneralRef { decoded, .. } => if s.field is Some {
            match decoded {
                Some(text) => (with_text(s, text@), XmlOutcome::More),
                None => (s, XmlOutcome::Failed(at, XmlFailure::XmlDecodingError)),
            }
        } else {
            (s, XmlOutcome::More)
        },
        XmlEvent::CData { content } => if s.field is Some {
            append_markup(s, at, Seq::empty(), content@, Seq::empty())
        } else {
            (s, XmlOutcome::More)
        },
        XmlEvent::Other { .. } => (s, XmlOutcome::More),
        XmlEvent::Eof => (s, XmlOutcome::End),
    }
}

/// What reading on has given.
#[derive(Debug)]
pub enum XmlStep {
    /// Nothing yet: the source wants the next event.
    More,
    Record(DataSourceRecord),
    Failed(XmlReadRecordError),
    /// The document has ended.
    End,
}

impl XmlStep {
    /// The step tells what the outcome says.
    pub open spec fn tells(&self, outcome: XmlOutcome) -> bool {
        match outcome {
            XmlOutcome::More => *self is More,
            XmlOutcome::End => *self is End,
            XmlOutcome::Record(record) => *self matches XmlStep::Record(r) && r@ == record,
            XmlOutcome::Failed(at, failure) => *self matches XmlStep::Failed(e) && e.index_view()
                == at && e.source_view() == failure,
        }
    }
}

} // verus!
