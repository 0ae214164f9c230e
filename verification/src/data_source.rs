pub mod field_set;
pub mod string_map;

use crate::data_source::string_map::{value_of, StringMap};
use vstd::prelude::*;

verus! {

/// Where a record stands in its source: its number, counted from 1, and the
/// lines it begins and ends on.
#[derive(Debug, Clone, Copy, PartialEq, Eq, Structural)]
pub struct DataSourceRecordIndex {
    pub record_number: u64,
    pub line_start: u64,
    pub line_end: u64,
}

/// Where reading failed: the number of the last record before it, if there
/// was one, and the line.
#[derive(Debug, Clone, Copy, PartialEq, Eq, Structural)]
pub struct DataSourceErrorIndex {
    pub record_number: Option<u64>,
    pub line_number: u64,
}

/// How a record index is shown.
pub open spec fn record_index_text(index: DataSourceRecordIndex) -> Seq<char> {
    "record: "@ + crate::text::decimal_text(index.record_number as nat) + ", line: "@
        + crate::text::decimal_text(index.line_start as nat) + " - "@ + crate::text::decimal_text(
        index.line_end as nat,
    )
}

/// How an error index is shown.
pub open spec fn error_index_text(index: DataSourceErrorIndex) -> Seq<char> {
    (match index.record_number {
        Some(n) => "record: "@ + crate::text::decimal_text(n as nat),
        None => "record: N/A"@,
    }) + ", line: "@ + crate::text::decimal_text(index.line_number as nat)
}

fn push_number(out: &mut String, n: u64)
    ensures
        final(out)@ == old(out)@ + crate::text::decimal_text(n as nat),
{
    crate::text::push_decimal_wide(out, n);
}

impl DataSourceRecordIndex {
    pub fn display(&self) -> (r: String)
        ensures
            r@ == record_index_text(*self),
    {
        let mut out = "record: ".to_owned();
        push_number(&mut out, self.record_number);
        out.append(", line: ");
        push_number(&mut out, self.line_start);
        out.append(" - ");
        push_number(&mut out, self.line_end);
        out
    }
}

impl DataSourceErrorIndex {
    pub fn display(&self) -> (r: String)
        ensures
            r@ == error_index_text(*self),
    {
        let mut out = match self.record_number {
            Some(n) => {
                let mut out = "record: ".to_owned();
                push_number(&mut out, n);
                out
            },
            None => "record: N/A".to_owned(),
        };
        out.append(", line: ");
        push_number(&mut out, self.line_number);
        out
    }
}

/// An error that arose while a record was read, with the place.
pub trait ReadRecordError {
    spec fn index_view(&self) -> DataSourceErrorIndex;

    fn index(&self) -> (r: DataSourceErrorIndex)
        ensures
            r == self.index_view(),
    ;
}

/// One record of a data source: its fields by name, in the order of the
/// source, and where it stands.
#[derive(Debug)]
pub struct DataSourceRecord {
    index: DataSourceRecordIndex,
    fields: StringMap,
}

pub struct RecordView {
    pub index: DataSourceRecordIndex,
    pub fields: Seq<(Seq<char>, Seq<char>)>,
}

impl View for DataSourceRecord {
    type V = RecordView;

    closed spec fn view(&self) -> RecordView {
        RecordView { index: self.index, fields: self.fields@ }
    }
}

/// How the first `upto` fields are shown: name and value in quotes.
pub open spec fn field_texts(fields: Seq<(Seq<char>, Seq<char>)>, upto: int) -> Seq<Seq<char>>
    decreases upto,
{
    if upto <= 0 {
        Seq::empty()
    } else {
        field_texts(fields, upto - 1).push(
            "\""@ + fields[upto - 1].0 + "\": \""@ + fields[upto - 1].1 + "\""@,
        )
    }
}

/// How a record is shown.
pub open spec fn record_text(record: RecordView) -> Seq<char> {
    record_index_text(record.index) + ", fields: { "@ + crate::text::joined(
        field_texts(record.fields, record.fields.len() as int),
        ", "@,
    ) + " }"@
}

impl DataSourceRecord {
    pub fn new(fields: StringMap, index: DataSourceRecordIndex) -> (r: DataSourceRecord)
        ensures
            r@ == (RecordView { index, fields: fields@ }),
    {
        DataSourceRecord { fields, index }
    }

    /// A record of the given fields; of two fields with the same name the
    /// first stays.
    pub fn from_iter(fields: &Vec<(String, String)>, index: DataSourceRecordIndex) -> (r:
        DataSourceRecord)
        ensures
            r@ == (RecordView {
                index,
                fields: crate::data_source::string_map::first_pairs(
                    crate::data_source::string_map::pair_views(fields@),
                    fields@.len() as int,
                ),
            }),
    {
        DataSourceRecord { fields: StringMap::from_pairs(fields), index }
    }

    /// The value of the field `key`.
    pub fn field(&self, key: &str) -> (r: Option<&str>)
        ensures
            match value_of(self@.fields, key@, 0) {
                Some(v) => r matches Some(s) && s@ == v,
                None => r is None,
            },
    {
        self.fields.get(key)
    }

    pub fn index(&self) -> (r: DataSourceRecordIndex)
        ensures
            r == self@.index,
    {
        self.index
    }

    /// The record as it is shown: its place, then its fields.
    pub fn display(&self) -> (r: String)
        ensures
            r@ == record_text(self@),
    {
        let mut out = self.index.display();
        out.append(", fields: { ");
        let fields = self.fields.pairs();
        let ghost shown = self@.fields;
        let mut pieces: Vec<String> = Vec::new();
        let mut i: usize = 0;
        proof {
            assert(crate::text::text_views(pieces@) =~= field_texts(shown, 0));
        }
        while i < fields.len()
            invariant
                i <= fields.len(),
                fields@.len() == shown.len(),
                forall|k: int|
                    0 <= k < fields@.len() ==> (#[trigger] fields@[k]).0@ == shown[k].0
                        && fields@[k].1@ == shown[k].1,
                crate::text::text_views(pieces@) == field_texts(shown, i as int),
            decreases fields.len() - i,
        {
            let mut piece = "\"".to_owned();
            piece.append(fields[i].0);
            piece.append("\": \"");
            piece.append(fields[i].1);
            piece.append("\"");
            proof {
                crate::text::lemma_text_views_push(pieces@, piece);
            }
            pieces.push(piece);
            i += 1;
        }
        out.append(crate::text::join(&pieces, ", ").as_str());
        out.append(" }");
        out
    }

    /// Names and values of the fields, in their order.
    pub fn fields(&self) -> (r: Vec<(&str, &str)>)
        ensures
            r@.len() == self@.fields.len(),
            forall|i: int|
                0 <= i < r@.len() ==> (#[trigger] r@[i]).0@ == self@.fields[i].0 && r@[i].1@
                    == self@.fields[i].1,
    {
        self.fields.pairs()
    }
}

} // verus!
