pub mod xml_data_source_stream;

use crate::data_source::field_set::{
    field_at, index_set_get_index_of, index_set_insert, index_set_len, index_set_new,
    lemma_push_distinct, set_items, FieldSet,
};
use crate::data_source::string_map::pair_views;
use crate::data_source::{
    DataSourceErrorIndex, DataSourceRecord, DataSourceRecordIndex, ReadRecordError,
};
use crate::delimited_data_source::distinct_names;
use crate::import_profile::Field;
use crate::text::{
    chars_of, count_byte, count_newlines, lemma_text_views_push, split_on, string_of,
    text_views, trim_chars, trimmed, utf8_text,
};
use crate::xml_data_source::xml_data_source_stream::{
    initial_state, lines_after, xml_step, XmlEvent, XmlFailure, XmlReadRecordError,
    XmlReadRecordErrorKind, XmlState, XmlStep,
};
use arrayvec::ArrayVec;
use vstd::prelude::*;
use vstd::utf8::{decode_utf8, valid_utf8};

verus! {

#[verifier::external_type_specification]
#[verifier::external_body]
#[verifier::reject_recursive_types(T)]
pub struct ExArrayVec<T, const CAP: usize>(ArrayVec<T, CAP>);

/// The names of the elements that lead to a record: at most eight.
pub type SelectorParts = ArrayVec<String, 8>;

/// The texts that a bounded vector of texts holds, in their order.
pub uninterp spec fn array_items(v: ArrayVec<String, 8>) -> Seq<Seq<char>>;

/// `ArrayVec::new`: a vector without items.
#[verifier::external_body]
pub(crate) fn array_vec_new() -> (v: ArrayVec<String, 8>)
    ensures
        array_items(v).len() == 0,
{
    ArrayVec::new()
}

/// `ArrayVec::len`: the number of items.
#[verifier::external_body]
pub(crate) fn array_vec_len(v: &ArrayVec<String, 8>) -> (n: usize)
    ensures
        n == array_items(*v).len(),
{
    v.len()
}

/// `ArrayVec::push`: the item is added at the end. A full vector is left out:
/// there the call does not return.
#[verifier::external_body]
pub(crate) fn array_vec_push(v: &mut ArrayVec<String, 8>, item: String)
    requires
        array_items(*old(v)).len() < 8,
    ensures
        array_items(*final(v)) == array_items(*old(v)).push(item@),
{
    v.push(item)
}

/// `ArrayVec::as_slice`: the items, in their order.
#[verifier::external_body]
pub(crate) fn array_vec_as_slice(v: &ArrayVec<String, 8>) -> (r: &[String])
    ensures
        text_views(r@) == array_items(*v),
{
    v.as_slice()
}

/// Why no XML data source could be made.
#[derive(Debug)]
pub enum CreateXmlDataSourceError {
    /// The file could not be opened: its path and the message of the system.
    OpenFileError(String, String),
    /// The selector names no element, or more than eight.
    InvalidSelector(String),
    /// No field has a name.
    InvalidFields,
}

/// The greatest number of parts that a selector can have.
pub const MAX_SELECTOR_PARTS: usize = 8;

/// The first `upto` pieces, trimmed, without the empty ones.
pub open spec fn trimmed_parts(pieces: Seq<Seq<char>>, upto: int) -> Seq<Seq<char>>
    decreases upto,
{
    if upto <= 0 {
        Seq::empty()
    } else {
        let before = trimmed_parts(pieces, upto - 1);
        let part = trimmed(pieces[upto - 1]);
        if part.len() == 0 {
            before
        } else {
            before.push(part)
        }
    }
}

/// The names of the elements that a selector leads through: what stands
/// between its slashes, trimmed, the empty parts left out.
pub open spec fn selector_parts(selector: Seq<char>) -> Seq<Seq<char>> {
    trimmed_parts(split_on(selector, '/'), split_on(selector, '/').len() as int)
}

/// The first `upto` names of fields without the empty ones.
pub open spec fn named_fields(fields: Seq<Field>, upto: int) -> Seq<Seq<char>>
    decreases upto,
{
    if upto <= 0 {
        Seq::empty()
    } else {
        let before = named_fields(fields, upto - 1);
        if fields[upto - 1].name@.len() == 0 {
            before
        } else {
            before.push(fields[upto - 1].name@)
        }
    }
}

/// The names of the fields that the source knows: the names that are not
/// empty, each once.
pub open spec fn field_names(fields: Seq<Field>) -> Seq<Seq<char>> {
    let named = named_fields(fields, fields.len() as int);
    distinct_names(named, named.len() as int)
}

/// The parts of a selector.
pub fn parse_selector(selector: &str) -> (r: Vec<String>)
    ensures
        text_views(r@) == selector_parts(selector@),
{
    let chars = chars_of(selector);
    let ghost all = split_on(chars@, '/');
    let mut out: Vec<String> = Vec::new();
    let mut start: usize = 0;
    let mut i: usize = 0;
    let ghost mut done: int = 0;
    proof {
        assert(chars@.take(0) =~= Seq::<char>::empty());
        assert(text_views(out@) =~= trimmed_parts(split_on(chars@.take(0), '/'), 0));
        assert(chars@.subrange(0, 0) =~= Seq::<char>::empty());
    }
    while i < chars.len()
        invariant
            start <= i <= chars.len(),
            0 <= done,
            split_on(chars@.take(i as int), '/').len() == done + 1,
            split_on(chars@.take(i as int), '/').last() == chars@.subrange(start as int, i as int),
            text_views(out@) == trimmed_parts(split_on(chars@.take(i as int), '/'), done),
        decreases chars.len() - i,
    {
        let ghost before = split_on(chars@.take(i as int), '/');
        proof {
            assert(chars@.take(i + 1).drop_last() == chars@.take(i as int));
            assert(chars@.take(i + 1).last() == chars@[i as int]);
        }
        if chars[i] == '/' {
            let part = trim_chars(&chars, start, i);
            let ghost now = split_on(chars@.take(i + 1), '/');
            proof {
                assert(now == before.push(Seq::<char>::empty()));
                lemma_trimmed_parts_prefix(before, now, done);
                assert(now[done] == before[done]);
                assert(chars@.subrange(i + 1, i + 1) =~= Seq::<char>::empty());
            }
            if part.len() > 0 {
                let text = string_of(&part);
                proof {
                    lemma_text_views_push(out@, text);
                }
                out.push(text);
            }
            start = i + 1;
            proof {
                done = done + 1;
            }
        } else {
            proof {
                let now = split_on(chars@.take(i + 1), '/');
                assert(now == before.update(before.len() - 1, before.last().push(chars@[i as int])));
                lemma_trimmed_parts_prefix(before, now, done);
                assert(chars@.subrange(start as int, i + 1) =~= chars@.subrange(
                    start as int,
                    i as int,
                ).push(chars@[i as int]));
            }
        }
        i += 1;
    }
    proof {
        assert(chars@.take(chars@.len() as int) == chars@);
        assert(all.len() == done + 1);
        assert(all[done] == chars@.subrange(start as int, chars@.len() as int));
    }
    let part = trim_chars(&chars, start, chars.len());
    if part.len() > 0 {
        let text = string_of(&part);
        proof {
            lemma_text_views_push(out@, text);
        }
        out.push(text);
    }
    out
}

/// The trimmed parts of the first pieces do not depend on the later pieces.
pub proof fn lemma_trimmed_parts_prefix(a: Seq<Seq<char>>, b: Seq<Seq<char>>, upto: int)
    requires
        0 <= upto <= a.len(),
        upto <= b.len(),
        forall|k: int| 0 <= k < upto ==> a[k] == b[k],
    ensures
        trimmed_parts(a, upto) == trimmed_parts(b, upto),
    decreases upto,
{
    if upto > 0 {
        lemma_trimmed_parts_prefix(a, b, upto - 1);
    }
}

/// The names of the fields that the source knows.
pub fn collect_field_names(fields: &Vec<Field>) -> (r: FieldSet)
    ensures
        set_items(r) == field_names(fields@),
        set_items(r).no_duplicates(),
{
    let mut named: Vec<String> = Vec::new();
    let mut i: usize = 0;
    assert(text_views(named@) =~= named_fields(fields@, 0));
    while i < fields.len()
        invariant
            i <= fields.len(),
            text_views(named@) == named_fields(fields@, i as int),
        decreases fields.len() - i,
    {
        if !fields[i].name.as_str().is_empty() {
            let name = fields[i].name.clone();
            proof {
                lemma_text_views_push(named@, name);
            }
            named.push(name);
        }
        i += 1;
    }
    let ghost names = text_views(named@);
    let mut out = index_set_new();
    let mut i: usize = 0;
    assert(set_items(out) =~= distinct_names(names, 0));
    while i < named.len()
        invariant
            i <= named.len(),
            names == text_views(named@),
            set_items(out) == distinct_names(names, i as int),
            set_items(out).no_duplicates(),
        decreases named.len() - i,
    {
        assert(names[i as int] == named@[i as int]@);
        proof {
            if !set_items(out).contains(names[i as int]) {
                lemma_push_distinct(set_items(out), names[i as int]);
            }
        }
        index_set_insert(&mut out, named[i].clone());
        i += 1;
    }
    out
}

/// The position of `name` among the names, if it is one of them.
pub open spec fn name_position(names: Seq<Seq<char>>, name: Seq<char>, i: int) -> Option<int>
    decreases names.len() - i,
{
    if i >= names.len() {
        None
    } else if names[i] == name {
        Some(i)
    } else {
        name_position(names, name, i + 1)
    }
}

pub proof fn lemma_name_position(names: Seq<Seq<char>>, name: Seq<char>, i: int)
    requires
        0 <= i,
    ensures
        match name_position(names, name, i) {
            Some(k) => i <= k < names.len() && names[k] == name,
            None => forall|k: int| i <= k < names.len() ==> names[k] != name,
        },
    decreases names.len() - i,
{
    if i < names.len() && names[i] != name {
        lemma_name_position(names, name, i + 1);
    }
}

/// Looks `name` up among the names.
pub fn position_of(names: &FieldSet, name: &String) -> (r: Option<usize>)
    requires
        set_items(*names).no_duplicates(),
    ensures
        match r {
            Some(i) => name_position(set_items(*names), name@, 0) == Some(i as int) && i
                < set_items(*names).len() && set_items(*names).contains(name@),
            None => name_position(set_items(*names), name@, 0) is None && !set_items(
                *names,
            ).contains(name@),
        },
{
    let found = index_set_get_index_of(names, name.as_str());
    proof {
        lemma_name_position(set_items(*names), name@, 0);
    }
    found
}

/// What has been read of the record that is being read: the fields that
/// have ended, the text of the field that is open, which field that is, and
/// the line on which the record began.
#[derive(Debug)]
pub struct CurrentRecordState {
    pub pairs: Vec<(String, String)>,
    pub value: String,
    pub field_index: Option<usize>,
    pub line_start: u64,
}

impl CurrentRecordState {
    pub fn new() -> (r: CurrentRecordState)
        ensures
            r.pairs@.len() == 0,
            r.value@.len() == 0,
            r.field_index is None,
            r.line_start == 0,
    {
        CurrentRecordState {
            pairs: Vec::new(),
            value: String::new(),
            field_index: None,
            line_start: 0,
        }
    }
}

/// An XML document that is read record by record. A record is an element
/// that the selector leads to; its fields are the elements in it.
#[derive(Debug)]
pub struct XmlDataSource {
    pub(crate) selector_parts: SelectorParts,
    pub(crate) fields: FieldSet,
    pub(crate) depth: usize,
    pub(crate) record_number: Option<u64>,
    pub(crate) line_number: u64,
    pub(crate) current_record_state: CurrentRecordState,
}

impl XmlDataSource {
    #[verifier::type_invariant]
    pub closed spec fn inv(&self) -> bool {
        &&& 1 <= array_items(self.selector_parts).len() <= MAX_SELECTOR_PARTS
        &&& set_items(self.fields).no_duplicates()
        &&& self.current_record_state.field_index matches Some(i) ==> i < set_items(
            self.fields,
        ).len()
    }

    /// A source for the records that `selector` leads to, with the fields
    /// `fields`.
    pub fn new(fields: &Vec<Field>, selector: &str) -> (r: Result<
        XmlDataSource,
        CreateXmlDataSourceError,
    >)
        ensures
            match r {
                Ok(source) => {
                    &&& 1 <= selector_parts(selector@).len() <= MAX_SELECTOR_PARTS
                    &&& field_names(fields@).len() > 0
                    &&& source.selector_view() == selector_parts(selector@)
                    &&& source.fields_view() == field_names(fields@)
                    &&& source@ == initial_state()
                },
                Err(CreateXmlDataSourceError::InvalidSelector(s)) => s@ == selector@ && !(1
                    <= selector_parts(selector@).len() <= MAX_SELECTOR_PARTS),
                Err(CreateXmlDataSourceError::InvalidFields) => 1 <= selector_parts(
                    selector@,
                ).len() <= MAX_SELECTOR_PARTS && field_names(fields@).len() == 0,
                Err(CreateXmlDataSourceError::OpenFileError(_, _)) => false,
            },
    {
        let parts = parse_selector(selector);
        assert(text_views(parts@).len() == parts@.len());
        if parts.len() == 0 || parts.len() > MAX_SELECTOR_PARTS {
            return Err(CreateXmlDataSourceError::InvalidSelector(selector.to_owned()));
        }
        let mut selector_parts = array_vec_new();
        let mut i: usize = 0;
        assert(array_items(selector_parts) =~= text_views(parts@).take(0));
        while i < parts.len()
            invariant
                i <= parts.len() <= MAX_SELECTOR_PARTS,
                array_items(selector_parts) == text_views(parts@).take(i as int),
            decreases parts.len() - i,
        {
            let part = parts[i].clone();
            assert(text_views(parts@).take(i + 1) =~= text_views(parts@).take(i as int).push(
                part@,
            ));
            array_vec_push(&mut selector_parts, part);
            i += 1;
        }
        assert(text_views(parts@).take(parts@.len() as int) =~= text_views(parts@));
        let fields = collect_field_names(fields);
        if index_set_len(&fields) == 0 {
            return Err(CreateXmlDataSourceError::InvalidFields);
        }
        let source = XmlDataSource {
            selector_parts,
            fields,
            depth: 0,
            record_number: None,
            line_number: 0,
            current_record_state: CurrentRecordState::new(),
        };
        proof {
            assert(source@.pairs =~= Seq::empty());
            assert(source@.value =~= Seq::empty());
        }
        Ok(source)
    }

    /// The names of the elements that lead to a record.
    pub closed spec fn selector_view(&self) -> Seq<Seq<char>> {
        array_items(self.selector_parts)
    }

    /// The names of the fields.
    pub closed spec fn fields_view(&self) -> Seq<Seq<char>> {
        set_items(self.fields)
    }

    pub fn fields(&self) -> (r: &FieldSet)
        ensures
            set_items(*r) == self.fields_view(),
    {
        &self.fields
    }

    pub fn record_number(&self) -> (r: Option<u64>)
        ensures
            r == self@.record_number,
    {
        self.record_number
    }
}

impl View for XmlDataSource {
    type V = XmlState;

    closed spec fn view(&self) -> XmlState {
        XmlState {
            depth: self.depth,
            record_number: self.record_number,
            line_number: self.line_number,
            line_start: self.current_record_state.line_start,
            pairs: pair_views(self.current_record_state.pairs@),
            value: self.current_record_state.value@,
            field: self.current_record_state.field_index,
        }
    }
}

fn add_lines(line: u64, more: usize) -> (r: u64)
    ensures
        r == lines_after(line, more as nat),
{
    let more_wide = more as u64;
    match line.checked_add(more_wide) {
        Some(sum) => sum,
        None => u64::MAX,
    }
}

/// Adds markup to `value`: `open`, the text of `content`, `close`. The
/// result says whether the content was UTF-8 text.
fn push_markup(value: String, open: &str, content: &[u8], close: &str) -> (r: (String, bool))
    ensures
        r.1 == valid_utf8(content@),
        r.1 ==> r.0@ == value@ + (open@ + decode_utf8(content@) + close@),
        !r.1 ==> r.0@ == value@ + open@,
{
    let ghost start = value@;
    let mut value = value;
    value.append(open);
    match utf8_text(content) {
        Some(text) => {
            value.append(text);
            value.append(close);
            proof {
                assert(value@ =~= start + (open@ + decode_utf8(content@) + close@));
            }
            (value, true)
        },
        None => (value, false),
    }
}

impl XmlDataSource {
    /// Takes the next event of the document.
    pub fn advance(self, event: XmlEvent) -> (r: (XmlDataSource, XmlStep))
        ensures
            r.0.selector_view() == self.selector_view(),
            r.0.fields_view() == self.fields_view(),
            r.0@ == xml_step(self.selector_view(), self.fields_view(), self@, event).0,
            r.1.tells(xml_step(self.selector_view(), self.fields_view(), self@, event).1),
    {
        proof {
            use_type_invariant(&self);
        }
        let ghost goal = xml_step(self.selector_view(), self.fields_view(), self@, event);
        let XmlDataSource {
            selector_parts,
            fields,
            depth,
            record_number,
            line_number,
            current_record_state,
        } = self;
        let CurrentRecordState { pairs, value, field_index, line_start } = current_record_state;
        let selector_len = array_vec_len(&selector_parts);
        let ghost selector = array_items(selector_parts);
        let ghost names = set_items(fields);
        proof {
            reveal_strlit("");
            assert(""@ =~= Seq::<char>::empty());
            assert(selector.len() == selector_len);
        }
        match event {
            XmlEvent::Start { local_name, content } => {
                let line_number = add_lines(line_number, count_newlines(content.as_slice()));
                let at = DataSourceErrorIndex {
                    record_number,
                    line_number: add_lines(line_number, 1),
                };
                let depth = if depth < usize::MAX {
                    depth + 1
                } else {
                    depth
                };
                if depth <= selector_len {
                    let line_start = if depth == selector_len {
                        add_lines(line_number, 1)
                    } else {
                        line_start
                    };
                    let step = match utf8_text(local_name.as_slice()) {
                        None => XmlStep::Failed(
                            XmlReadRecordError::new(at, XmlReadRecordErrorKind::Utf8Error),
                        ),
                        Some(name) => {
                            let expected = array_vec_as_slice(&selector_parts);
                            assert(text_views(expected@).len() == expected@.len());
                            assert(selector[depth - 1] == expected@[depth - 1]@);
                            let name = name.to_owned();
                            if expected[depth - 1] == name {
                                XmlStep::More
                            } else {
                                XmlStep::Failed(
                                    XmlReadRecordError::new(
                                        at,
                                        XmlReadRecordErrorKind::UnexpectedStartTag(name),
                                    ),
                                )
                            }
                        },
                    };
                    (
                        XmlDataSource {
                            selector_parts,
                            fields,
                            depth,
                            record_number,
                            line_number,
                            current_record_state: CurrentRecordState {
                                pairs,
                                value,
                                field_index,
                                line_start,
                            },
                        },
                        step,
                    )
                } else if depth - selector_len == 1 {
                    let (field_index, step) = match utf8_text(local_name.as_slice()) {
                        None => (
                            field_index,
                            XmlStep::Failed(
                                XmlReadRecordError::new(at, XmlReadRecordErrorKind::Utf8Error),
                            ),
                        ),
                        Some(name) => {
                            let name = name.to_owned();
                            match position_of(&fields, &name) {
                                Some(i) => (Some(i), XmlStep::More),
                                None => (
                                    field_index,
                                    XmlStep::Failed(
                                        XmlReadRecordError::new(
                                            at,
                                            XmlReadRecordErrorKind::UnknownField(name),
                                        ),
                                    ),
                                ),
                            }
                        },
                    };
                    (
                        XmlDataSource {
                            selector_parts,
                            fields,
                            depth,
                            record_number,
                            line_number,
                            current_record_state: CurrentRecordState {
                                pairs,
                                value,
                                field_index,
                                line_start,
                            },
                        },
                        step,
                    )
                } else {
                    let (value, valid) = push_markup(value, "<", content.as_slice(), ">");
                    let step = if valid {
                        XmlStep::More
                    } else {
                        XmlStep::Failed(
                            XmlReadRecordError::new(at, XmlReadRecordErrorKind::Utf8Error),
                        )
                    };
                    (
                        XmlDataSource {
                            selector_parts,
                            fields,
                            depth,
                            record_number,
                            line_number,
                            current_record_state: CurrentRecordState {
                                pairs,
                                value,
                                field_index,
                                line_start,
                            },
                        },
                        step,
                    )
                }
            },
            XmlEvent::End { content } => {
                let line_number = add_lines(line_number, count_newlines(content.as_slice()));
                let at = DataSourceErrorIndex {
                    record_number,
                    line_number: add_lines(line_number, 1),
                };
                let depth = if depth > 0 {
                    depth - 1
                } else {
                    0
                };
                if depth > selector_len {
                    let (value, valid) = push_markup(value, "</", content.as_slice(), ">");
                    let step = if valid {
                        XmlStep::More
                    } else {
                        XmlStep::Failed(
                            XmlReadRecordError::new(at, XmlReadRecordErrorKind::Utf8Error),
                        )
                    };
                    (
                        XmlDataSource {
                            selector_parts,
                            fields,
                            depth,
                            record_number,
                            line_number,
                            current_record_state: CurrentRecordState {
                                pairs,
                                value,
                                field_index,
                                line_start,
                            },
                        },
                        step,
                    )
                } else if depth == selector_len {
                    let (pairs, value, field_index) = match field_index {
                        Some(i) => {
                            let mut pairs = pairs;
                            let name = field_at(&fields, i).clone();
                            proof {
                                assert(pair_views(pairs@.push((name, value))) =~= pair_views(
                                    pairs@,
                                ).push((name@, value@)));
                            }
                            pairs.push((name, value));
                            (pairs, String::new(), None)
                        },
                        None => (pairs, value, None),
                    };
                    (
                        XmlDataSource {
                            selector_parts,
                            fields,
                            depth,
                            record_number,
                            line_number,
                            current_record_state: CurrentRecordState {
                                pairs,
                                value,
                                field_index,
                                line_start,
                            },
                        },
                        XmlStep::More,
                    )
                } else if depth + 1 == selector_len {
                    let number = match record_number {
                        None => 1,
                        Some(n) => if n < u64::MAX {
                            n + 1
                        } else {
                            u64::MAX
                        },
                    };
                    let record = DataSourceRecord::from_iter(
                        &pairs,
                        DataSourceRecordIndex {
                            record_number: number,
                            line_start,
                            line_end: add_lines(line_number, 1),
                        },
                    );
                    let fresh = CurrentRecordState::new();
                    proof {
                        assert(pair_views(fresh.pairs@) =~= Seq::empty());
                        assert(fresh.value@ =~= Seq::empty());
                    }
                    (
                        XmlDataSource {
                            selector_parts,
                            fields,
                            depth,
                            record_number: Some(number),
                            line_number,
                            current_record_state: fresh,
                        },
                        XmlStep::Record(record),
                    )
                } else {
                    (
                        XmlDataSource {
                            selector_parts,
                            fields,
                            depth,
                            record_number,
                            line_number,
                            current_record_state: CurrentRecordState {
                                pairs,
                                value,
                                field_index,
                                line_start,
                            },
                        },
                        XmlStep::More,
                    )
                }
            },
            XmlEvent::Text { content } | XmlEvent::CData { content } => {
                let line_number = add_lines(line_number, count_newlines(content.as_slice()));
                let at = DataSourceErrorIndex {
                    record_number,
                    line_number: add_lines(line_number, 1),
                };
                let (value, step) = if field_index.is_some() {
                    let (value, valid) = push_markup(value, "", content.as_slice(), "");
                    if valid {
                        (value, XmlStep::More)
                    } else {
                        (
                            value,
                            XmlStep::Failed(
                                XmlReadRecordError::new(at, XmlReadRecordErrorKind::Utf8Error),
                            ),
                        )
                    }
                } else {
                    (value, XmlStep::More)
                };
                (
                    XmlDataSource {
                        selector_parts,
                        fields,
                        depth,
                        record_number,
                        line_number,
                        current_record_state: CurrentRecordState {
                            pairs,
                            value,
                            field_index,
                            line_start,
                        },
                    },
                    step,
                )
            },
            XmlEvent::Empty { content } => {
                let line_number = add_lines(line_number, count_newlines(content.as_slice()));
                let at = DataSourceErrorIndex {
                    record_number,
                    line_number: add_lines(line_number, 1),
                };
                let (value, step) = if field_index.is_some() {
                    let (value, valid) = push_markup(value, "<", content.as_slice(), "/>");
                    if valid {
                        (value, XmlStep::More)
                    } else {
                        (
                            value,
                            XmlStep::Failed(
                                XmlReadRecordError::new(at, XmlReadRecordErrorKind::Utf8Error),
                            ),
                        )
                    }
                } else {
                    (value, XmlStep::More)
                };
                (
                    XmlDataSource {
                        selector_parts,
                        fields,
                        depth,
                        record_number,
                        line_number,
                        current_record_state: CurrentRecordState {
                            pairs,
                            value,
                            field_index,
                            line_start,
                        },
                    },
                    step,
                )
            },
            XmlEvent::GeneralRef { content, decoded } => {
                let line_number = add_lines(line_number, count_newlines(content.as_slice()));
                let at = DataSourceErrorIndex {
                    record_number,
                    line_number: add_lines(line_number, 1),
                };
                let (value, step) = if field_index.is_some() {
                    match decoded {
                        Some(text) => {
                            let mut value = value;
                            value.append(text.as_str());
                            (value, XmlStep::More)
                        },
                        None => (
                            value,
                            XmlStep::Failed(
                                XmlReadRecordError::new(
                                    at,
                                    XmlReadRecordErrorKind::XmlDecodingError,
                                ),
                            ),
                        ),
                    }
                } else {
                    (value, XmlStep::More)
                };
                (
                    XmlDataSource {
                        selector_parts,
                        fields,
                        depth,
                        record_number,
                        line_number,
                        current_record_state: CurrentRecordState {
                            pairs,
                            value,
                            field_index,
                            line_start,
                        },
                    },
                    step,
                )
            },
            XmlEvent::Other { content } => {
                let line_number = add_lines(line_number, count_newlines(content.as_slice()));
                (
                    XmlDataSource {
                        selector_parts,
                        fields,
                        depth,
                        record_number,
                        line_number,
                        current_record_state: CurrentRecordState {
                            pairs,
                            value,
                            field_index,
                            line_start,
                        },
                    },
                    XmlStep::More,
                )
            },
            XmlEvent::Eof => {
                proof {
                    assert(count_byte(Seq::<u8>::empty(), 10) == 0);
                }
                (
                    XmlDataSource {
                        selector_parts,
                        fields,
                        depth,
                        record_number,
                        line_number,
                        current_record_state: CurrentRecordState {
                            pairs,
                            value,
                            field_index,
                            line_start,
                        },
                    },
                    XmlStep::End,
                )
            },
        }
    }

    /// The error for a failure of the reader, which read `buffer` before it
    /// failed.
    pub fn fail(self, buffer: &[u8], message: String) -> (r: (XmlDataSource, XmlReadRecordError))
        ensures
            r.0.selector_view() == self.selector_view(),
            r.0.fields_view() == self.fields_view(),
            r.0@ == (XmlState {
                line_number: lines_after(self@.line_number, count_byte(buffer@, 10)),
                ..self@
            }),
            r.1.index_view() == (DataSourceErrorIndex {
                record_number: self@.record_number,
                line_number: lines_after(self@.line_number, count_byte(buffer@, 10)),
            }),
            r.1.source_view() == XmlFailure::XmlError(message@),
    {
        proof {
            use_type_invariant(&self);
        }
        let XmlDataSource {
            selector_parts,
            fields,
            depth,
            record_number,
            line_number,
            current_record_state,
        } = self;
        let line_number = add_lines(line_number, count_newlines(buffer));
        let error = XmlReadRecordError::new(
            DataSourceErrorIndex { record_number, line_number },
            XmlReadRecordErrorKind::XmlError(message),
        );
        (
            XmlDataSource {
                selector_parts,
                fields,
                depth,
                record_number,
                line_number,
                current_record_state,
            },
            error,
        )
    }
}

} // verus!
