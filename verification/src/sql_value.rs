use crate::metadata::{FixedLenKind, SqlType, VarLenKind};
use crate::text::{chars_of, decimal_value, is_digit};
use vstd::prelude::*;

verus! {

/// A decimal number: `mantissa` divided by ten to the power of `scale`.
#[derive(Debug, Clone, Copy, PartialEq, Eq, Structural)]
pub struct DecimalValue {
    pub mantissa: i128,
    pub scale: u32,
}

/// What one cell of a row holds, by the type of its column. A value that
/// could not be read from its text is missing. Of a floating-point cell the
/// text is handed on as it is: whoever sends the row reads the number from it,
/// and sends no value where it is none.
#[derive(Debug)]
pub enum CellValue {
    Bit(Option<bool>),
    U8(Option<u8>),
    I16(Option<i16>),
    I32(Option<i32>),
    I64(Option<i64>),
    Float4(String),
    Float8(String),
    Text(String),
    Numeric(Option<DecimalValue>),
}

pub enum CellView {
    Bit(Option<bool>),
    U8(Option<u8>),
    I16(Option<i16>),
    I32(Option<i32>),
    I64(Option<i64>),
    Float4(Seq<char>),
    Float8(Seq<char>),
    Text(Seq<char>),
    Numeric(Option<DecimalValue>),
}

impl CellView {
    /// Whether the cell is known to hold no value.
    pub open spec fn is_missing(self) -> bool {
        match self {
            CellView::Bit(v) => v is None,
            CellView::U8(v) => v is None,
            CellView::I16(v) => v is None,
            CellView::I32(v) => v is None,
            CellView::I64(v) => v is None,
            CellView::Float4(_) => false,
            CellView::Float8(_) => false,
            CellView::Text(_) => false,
            CellView::Numeric(v) => v is None,
        }
    }
}

impl View for CellValue {
    type V = CellView;

    open spec fn view(&self) -> CellView {
        match self {
            CellValue::Bit(v) => CellView::Bit(*v),
            CellValue::U8(v) => CellView::U8(*v),
            CellValue::I16(v) => CellView::I16(*v),
            CellValue::I32(v) => CellView::I32(*v),
            CellValue::I64(v) => CellView::I64(*v),
            CellValue::Float4(t) => CellView::Float4(t@),
            CellValue::Float8(t) => CellView::Float8(t@),
            CellValue::Text(t) => CellView::Text(t@),
            CellValue::Numeric(v) => CellView::Numeric(*v),
        }
    }
}

impl CellValue {
    pub fn is_missing(&self) -> (r: bool)
        ensures
            r == self@.is_missing(),
    {
        match self {
            CellValue::Bit(v) => v.is_none(),
            CellValue::U8(v) => v.is_none(),
            CellValue::I16(v) => v.is_none(),
            CellValue::I32(v) => v.is_none(),
            CellValue::I64(v) => v.is_none(),
            CellValue::Float4(_) => false,
            CellValue::Float8(_) => false,
            CellValue::Text(_) => false,
            CellValue::Numeric(v) => v.is_none(),
        }
    }
}

/// Whether the text holds digits only.
pub open spec fn all_digits(s: Seq<char>) -> bool {
    forall|i: int| 0 <= i < s.len() ==> is_digit(#[trigger] s[i])
}

/// The integer that a text spells, if it lies from `min` to `max`: digits,
/// before them at most one sign, which is `+` or, for a signed type, `-`.
pub open spec fn parse_integer(s: Seq<char>, signed: bool, min: int, max: int) -> Option<int> {
    let negative = signed && s.len() > 0 && s[0] == '-';
    let digits = if s.len() > 0 && (s[0] == '+' || negative) {
        s.skip(1)
    } else {
        s
    };
    if digits.len() == 0 || !all_digits(digits) {
        None
    } else {
        let value = if negative {
            -(decimal_value(digits) as int)
        } else {
            decimal_value(digits) as int
        };
        if min <= value <= max {
            Some(value)
        } else {
            None
        }
    }
}

pub open spec fn u8_of_text(s: Seq<char>) -> Option<u8> {
    match parse_integer(s, false, 0, 0xff) {
        Some(v) => Some(v as u8),
        None => None,
    }
}

pub open spec fn i16_of_text(s: Seq<char>) -> Option<i16> {
    match parse_integer(s, true, -0x8000, 0x7fff) {
        Some(v) => Some(v as i16),
        None => None,
    }
}

pub open spec fn i32_of_text(s: Seq<char>) -> Option<i32> {
    match parse_integer(s, true, -0x8000_0000, 0x7fff_ffff) {
        Some(v) => Some(v as i32),
        None => None,
    }
}

pub open spec fn i64_of_text(s: Seq<char>) -> Option<i64> {
    match parse_integer(s, true, -0x8000_0000_0000_0000, 0x7fff_ffff_ffff_ffff) {
        Some(v) => Some(v as i64),
        None => None,
    }
}

pub open spec fn bool_of_text(s: Seq<char>) -> Option<bool> {
    if s == "true"@ {
        Some(true)
    } else if s == "false"@ {
        Some(false)
    } else {
        None
    }
}

/// Mantissa and scale of the decimal number that a text spells, as the
/// decimal arithmetic reads it.
pub uninterp spec fn decimal_of_text(s: Seq<char>) -> Option<(i128, u32)>;

/// The integer that the text spells, if it lies from `min` to `max`.
fn parse_within(text: &str, signed: bool, min: i128, max: i128) -> (r: Option<i128>)
    requires
        -0x8000_0000_0000_0000 <= min <= 0,
        0 <= max <= 0x7fff_ffff_ffff_ffff,
    ensures
        match r {
            Some(v) => parse_integer(text@, signed, min as int, max as int) == Some(v as int),
            None => parse_integer(text@, signed, min as int, max as int) is None,
        },
{
    let chars = chars_of(text);
    let n: usize = chars.len();
    let negative = signed && n > 0 && chars[0] == '-';
    let start: usize = if n > 0 && (chars[0] == '+' || negative) {
        1
    } else {
        0
    };
    let ghost digits = chars@.skip(start as int);
    assert(chars@.skip(0) =~= chars@);
    if start == n {
        return None;
    }
    let limit: u128 = 0x8000_0000_0000_0000;
    let mut value: u128 = 0;
    let mut over = false;
    let mut i: usize = start;
    assert(digits.take(0) =~= Seq::<char>::empty());
    while i < n
        invariant
            start <= i <= n,
            n == chars@.len(),
            digits == chars@.skip(start as int),
            chars@ == text@,
            negative == (signed && text@.len() > 0 && text@[0] == '-'),
            digits == if text@.len() > 0 && (text@[0] == '+' || negative) {
                text@.skip(1)
            } else {
                text@
            },
            limit == 0x8000_0000_0000_0000,
            all_digits(digits.take(i - start)),
            value <= limit,
            !over ==> value == decimal_value(digits.take(i - start)),
            over ==> decimal_value(digits.take(i - start)) > limit,
        decreases n - i,
    {
        let c: char = chars[i];
        let code: u32 = c as u32;
        if code < 48 || code > 57 {
            assert(!is_digit(digits[i - start]));
            return None;
        }
        let digit: u128 = (code - 48) as u128;
        proof {
            let now = digits.take(i + 1 - start);
            assert(now.drop_last() =~= digits.take(i - start));
            assert(now.last() == chars@[i as int]);
            assert forall|k: int| 0 <= k < now.len() implies is_digit(#[trigger] now[k]) by {
                if k < now.len() - 1 {
                    assert(now[k] == digits.take(i - start)[k]);
                }
            }
        }
        if !over {
            let next: u128 = value * 10 + digit;
            if next > limit {
                over = true;
            } else {
                value = next;
            }
        }
        i += 1;
    }
    assert(digits.take(n - start) =~= digits);
    if over {
        return None;
    }
    let number: i128 = if negative {
        -(value as i128)
    } else {
        value as i128
    };
    if min <= number && number <= max {
        Some(number)
    } else {
        None
    }
}

/// The number of a tiny integer column that the text spells.
fn parse_u8(text: &str) -> (r: Option<u8>)
    ensures
        r == u8_of_text(text@),
{
    match parse_within(text, false, 0, 0xff) {
        Some(v) => Some(v as u8),
        None => None,
    }
}

/// The number of a small integer column that the text spells.
fn parse_i16(text: &str) -> (r: Option<i16>)
    ensures
        r == i16_of_text(text@),
{
    match parse_within(text, true, -0x8000, 0x7fff) {
        Some(v) => Some(v as i16),
        None => None,
    }
}

/// The number of an integer column that the text spells.
fn parse_i32(text: &str) -> (r: Option<i32>)
    ensures
        r == i32_of_text(text@),
{
    match parse_within(text, true, -0x8000_0000, 0x7fff_ffff) {
        Some(v) => Some(v as i32),
        None => None,
    }
}

/// The number of a big integer column that the text spells.
fn parse_i64(text: &str) -> (r: Option<i64>)
    ensures
        r == i64_of_text(text@),
{
    match parse_within(text, true, -0x8000_0000_0000_0000, 0x7fff_ffff_ffff_ffff) {
        Some(v) => Some(v as i64),
        None => None,
    }
}

/// `str::parse` for `bool`: `true` and `false` and nothing else.
#[verifier::external_body]
fn parse_bool(text: &str) -> (r: Option<bool>)
    ensures
        r == bool_of_text(text@),
{
    text.parse::<bool>().ok()
}

/// `Decimal::from_str` with `Decimal::mantissa` and `Decimal::scale`: the
/// number that the text spells, taken apart.
#[verifier::external_body]
fn parse_decimal(text: &str) -> (r: Option<(i128, u32)>)
    ensures
        r == decimal_of_text(text@),
{
    text.parse::<rust_decimal::Decimal>().ok().map(|d| (d.mantissa(), d.scale()))
}

/// The cell of a decimal column for what the decimal arithmetic read.
pub open spec fn numeric_cell(parsed: Option<(i128, u32)>) -> CellView {
    CellView::Numeric(
        match parsed {
            Some(d) => Some(DecimalValue { mantissa: d.0, scale: d.1 }),
            None => None,
        },
    )
}

/// The cell that a text gives in a column of the type `ty`; none for a type
/// that the import does not handle. `decimal` is what the decimal arithmetic
/// reads from the text.
pub open spec fn coerced(ty: SqlType, text: Seq<char>, decimal: Option<(i128, u32)>) -> Option<
    CellView,
> {
    match ty {
        SqlType::FixedLen(kind) => match kind {
            FixedLenKind::Int1 => Some(CellView::U8(u8_of_text(text))),
            FixedLenKind::Bit => Some(CellView::Bit(bool_of_text(text))),
            FixedLenKind::Int2 => Some(CellView::I16(i16_of_text(text))),
            FixedLenKind::Int4 => Some(CellView::I32(i32_of_text(text))),
            FixedLenKind::Float4 => Some(CellView::Float4(text)),
            FixedLenKind::Float8 => Some(CellView::Float8(text)),
            FixedLenKind::Int8 => Some(CellView::I64(i64_of_text(text))),
            _ => None,
        },
        SqlType::VarLenSized { ty, .. } => match ty {
            VarLenKind::BigVarChar => Some(CellView::Text(text)),
            VarLenKind::NVarchar => Some(CellView::Text(text)),
            _ => None,
        },
        SqlType::VarLenSizedPrecision { ty, .. } => match ty {
            VarLenKind::Decimaln => Some(numeric_cell(decimal)),
            VarLenKind::Numericn => Some(numeric_cell(decimal)),
            VarLenKind::Money => Some(numeric_cell(decimal)),
            _ => None,
        },
        SqlType::Xml { .. } => None,
        SqlType::Udt => None,
    }
}

/// The cell for `text` in a column of the type `ty`, given what the decimal
/// arithmetic read from `text`.
pub fn coerce_with(ty: &SqlType, text: &str, decimal: Option<(i128, u32)>) -> (r: Option<
    CellValue,
>)
    ensures
        match coerced(*ty, text@, decimal) {
            Some(cell) => r matches Some(c) && c@ == cell,
            None => r is None,
        },
{
    match ty {
        SqlType::FixedLen(kind) => match kind {
            FixedLenKind::Int1 => Some(CellValue::U8(parse_u8(text))),
            FixedLenKind::Bit => Some(CellValue::Bit(parse_bool(text))),
            FixedLenKind::Int2 => Some(CellValue::I16(parse_i16(text))),
            FixedLenKind::Int4 => Some(CellValue::I32(parse_i32(text))),
            FixedLenKind::Float4 => Some(CellValue::Float4(text.to_owned())),
            FixedLenKind::Float8 => Some(CellValue::Float8(text.to_owned())),
            FixedLenKind::Int8 => Some(CellValue::I64(parse_i64(text))),
            _ => None,
        },
        SqlType::VarLenSized { ty, .. } => match ty {
            VarLenKind::BigVarChar => Some(CellValue::Text(text.to_owned())),
            VarLenKind::NVarchar => Some(CellValue::Text(text.to_owned())),
            _ => None,
        },
        SqlType::VarLenSizedPrecision { ty, .. } => match ty {
            VarLenKind::Decimaln | VarLenKind::Numericn | VarLenKind::Money => Some(
                CellValue::Numeric(
                    match decimal {
                        Some(d) => Some(DecimalValue { mantissa: d.0, scale: d.1 }),
                        None => None,
                    },
                ),
            ),
            _ => None,
        },
        SqlType::Xml { .. } => None,
        SqlType::Udt => None,
    }
}

/// The cell for `text` in a column of the type `ty`: the text is read as the
/// type asks; what cannot be read leaves the cell without a value.
pub fn coerce(ty: &SqlType, text: &str) -> (r: Option<CellValue>)
    ensures
        match coerced(*ty, text@, decimal_of_text(text@)) {
            Some(cell) => r matches Some(c) && c@ == cell,
            None => r is None,
        },
{
    let decimal = match ty {
        SqlType::VarLenSizedPrecision { .. } => parse_decimal(text),
        _ => None,
    };
    coerce_with(ty, text, decimal)
}

} // verus!
