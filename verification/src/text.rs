use vstd::prelude::*;
use vstd::std_specs::iter::IteratorSpec;
use vstd::utf8::{
    decode_utf8, encode_utf8, encode_utf8_decode_utf8, encode_utf8_first_scalar,
    encode_utf8_valid_utf8, is_char_boundary, is_char_boundary_iff_not_is_continuation_byte,
    is_char_boundary_start_end_of_seq, pop_first_scalar, valid_utf8, valid_utf8_concat,
    valid_utf8_split,
};

verus! {

/// The characters of `s`, in order.
pub fn chars_of(s: &str) -> (out: Vec<char>)
    ensures
        out@ == s@,
{
    let mut out: Vec<char> = Vec::new();
    let chars = s.chars();
    for c in it: chars
        invariant
            it.seq() == s@,
            out@ == s@.take(it.index() as int),
    {
        out.push(c);
    }
    assert(s@.take(s@.len() as int) == s@);
    out
}

/// `String::push`: appends one character to the end of the string.
#[verifier::external_body]
pub(crate) fn push_char(s: &mut String, c: char)
    ensures
        final(s)@ == old(s)@.push(c),
{
    s.push(c);
}

/// The text made of the characters `v`.
pub fn string_of(v: &Vec<char>) -> (out: String)
    ensures
        out@ == v@,
{
    let mut out = String::new();
    let mut i: usize = 0;
    while i < v.len()
        invariant
            i <= v.len(),
            out@ == v@.take(i as int),
        decreases v.len() - i,
    {
        push_char(&mut out, v[i]);
        i += 1;
    }
    assert(v@.take(v@.len() as int) == v@);
    out
}

/// `str::from_utf8`: the text that the bytes encode, if they are UTF-8.
#[verifier::external_body]
pub(crate) fn utf8_text(bytes: &[u8]) -> (r: Option<&str>)
    ensures
        match r {
            Some(s) => valid_utf8(bytes@) && s@ == decode_utf8(bytes@),
            None => !valid_utf8(bytes@),
        },
{
    std::str::from_utf8(bytes).ok()
}

/// The encoding of two texts one behind the other is the encoding of the
/// first followed by that of the second.
pub proof fn lemma_encode_concat(a: Seq<char>, b: Seq<char>)
    ensures
        encode_utf8(a + b) == encode_utf8(a) + encode_utf8(b),
    decreases a.len(),
{
    if a.len() == 0 {
        assert(a + b =~= b);
        assert(encode_utf8(a) + encode_utf8(b) =~= encode_utf8(b));
    } else {
        lemma_encode_concat(a.drop_first(), b);
        assert((a + b).drop_first() =~= a.drop_first() + b);
        assert((a + b)[0] == a[0]);
        let head = vstd::utf8::encode_scalar(a[0] as u32);
        assert(head + (encode_utf8(a.drop_first()) + encode_utf8(b)) =~= (head + encode_utf8(
            a.drop_first(),
        )) + encode_utf8(b));
    }
}

/// In the encoding of two texts one behind the other a character begins
/// where the encoding of the first text ends.
pub proof fn lemma_boundary_between(a: Seq<char>, b: Seq<char>)
    ensures
        is_char_boundary(encode_utf8(a + b), encode_utf8(a).len() as int),
    decreases a.len(),
{
    let bytes = encode_utf8(a + b);
    encode_utf8_valid_utf8(a + b);
    if a.len() > 0 {
        lemma_encode_concat(a, b);
        lemma_boundary_between(a.drop_first(), b);
        encode_utf8_first_scalar(a + b);
        assert((a + b)[0] == a[0]);
        assert((a + b).drop_first() =~= a.drop_first() + b);
        let head = vstd::utf8::encode_scalar(a[0] as u32);
        assert(bytes == head + encode_utf8((a + b).drop_first()));
        assert(pop_first_scalar(bytes) =~= encode_utf8(a.drop_first() + b));
        assert(encode_utf8(a) == head + encode_utf8(a.drop_first()));
        assert(head.len() > 0);
    }
}

/// Where a character begins in an encoded text, one begins in the text with
/// more behind it.
pub proof fn lemma_boundary_extends(front: Seq<u8>, back: Seq<u8>, k: int)
    requires
        valid_utf8(front),
        valid_utf8(back),
        0 <= k <= front.len(),
        is_char_boundary(front, k),
    ensures
        is_char_boundary(front + back, k),
{
    let bytes = front + back;
    valid_utf8_concat(front, back);
    if k == 0 {
    } else if k < front.len() {
        is_char_boundary_iff_not_is_continuation_byte(front, k);
        assert(bytes[k] == front[k]);
        is_char_boundary_iff_not_is_continuation_byte(bytes, k);
    } else if back.len() == 0 {
        assert(bytes =~= front);
    } else {
        is_char_boundary_start_end_of_seq(back);
        is_char_boundary_iff_not_is_continuation_byte(back, 0);
        assert(bytes[k] == back[0]);
        is_char_boundary_iff_not_is_continuation_byte(bytes, k);
    }
}

/// Where a character begins in an encoded text, one begins in the part of
/// the text up to a later beginning.
pub proof fn lemma_boundary_in_prefix(bytes: Seq<u8>, start: int, end: int)
    requires
        valid_utf8(bytes),
        0 <= start <= end <= bytes.len(),
        is_char_boundary(bytes, start),
        is_char_boundary(bytes, end),
    ensures
        valid_utf8(bytes.subrange(0, end)),
        is_char_boundary(bytes.subrange(0, end), start),
{
    let head = bytes.subrange(0, end);
    valid_utf8_split(bytes, end);
    if start == 0 {
    } else if start == end {
        is_char_boundary_start_end_of_seq(head);
    } else {
        is_char_boundary_iff_not_is_continuation_byte(bytes, start);
        assert(head[start] == bytes[start]);
        is_char_boundary_iff_not_is_continuation_byte(head, start);
    }
}

/// Texts with the same encoding are the same.
pub proof fn lemma_encode_injective(a: Seq<char>, b: Seq<char>)
    requires
        encode_utf8(a) == encode_utf8(b),
    ensures
        a == b,
{
    encode_utf8_decode_utf8(a);
    encode_utf8_decode_utf8(b);
}

/// A character of ASCII is encoded as one byte.
pub proof fn lemma_encode_ascii(c: char)
    requires
        (c as u32) < 128,
    ensures
        encode_utf8(seq![c]).len() == 1,
{
    let d = seq![c];
    assert(d.drop_first() =~= Seq::<char>::empty());
    assert(encode_utf8(d.drop_first()).len() == 0);
    assert(vstd::utf8::has_width_1_encoding(c as u32));
}

/// What `char::is_alphanumeric` answers for a character outside ASCII: the
/// Unicode tables of the standard library decide it.
pub uninterp spec fn unicode_alphanumeric(c: char) -> bool;

/// `0-9`, `A-Z` or `a-z`.
pub open spec fn is_ascii_alphanumeric(c: char) -> bool {
    let u = c as u32;
    (48 <= u <= 57) || (65 <= u <= 90) || (97 <= u <= 122)
}

/// A letter or a digit in the sense of Unicode.
pub open spec fn is_alphanumeric(c: char) -> bool {
    if (c as u32) < 128 {
        is_ascii_alphanumeric(c)
    } else {
        unicode_alphanumeric(c)
    }
}

/// `char::is_alphanumeric`: within ASCII exactly the letters and digits; beyond
/// ASCII whatever the Unicode tables say, which is left uninterpreted.
#[verifier::external_body]
pub(crate) fn char_is_alphanumeric(c: char) -> (r: bool)
    ensures
        r == (if (c as u32) < 128 {
            is_ascii_alphanumeric(c)
        } else {
            unicode_alphanumeric(c)
        }),
{
    c.is_alphanumeric()
}

/// The character of a decimal digit.
pub open spec fn digit_char(d: int) -> char {
    if d == 0 {
        '0'
    } else if d == 1 {
        '1'
    } else if d == 2 {
        '2'
    } else if d == 3 {
        '3'
    } else if d == 4 {
        '4'
    } else if d == 5 {
        '5'
    } else if d == 6 {
        '6'
    } else if d == 7 {
        '7'
    } else if d == 8 {
        '8'
    } else {
        '9'
    }
}

/// Whether `c` is one of `0` to `9`.
pub open spec fn is_digit(c: char) -> bool {
    48 <= c as u32 <= 57
}

/// The decimal numeral of `n`, without leading zeros.
pub open spec fn decimal_text(n: nat) -> Seq<char>
    decreases n,
{
    if n < 10 {
        seq![digit_char(n as int)]
    } else {
        decimal_text(n / 10).push(digit_char((n % 10) as int))
    }
}

/// A decimal numeral is not empty and holds digits only.
pub proof fn lemma_decimal_text_digits(n: nat)
    ensures
        decimal_text(n).len() >= 1,
        forall|i: int| 0 <= i < decimal_text(n).len() ==> is_digit(#[trigger] decimal_text(n)[i]),
    decreases n,
{
    if n >= 10 {
        lemma_decimal_text_digits(n / 10);
    }
}

/// The number that a text of digits spells.
pub open spec fn decimal_value(s: Seq<char>) -> nat
    decreases s.len(),
{
    if s.len() == 0 {
        0
    } else {
        (decimal_value(s.drop_last()) * 10 + (s.last() as u32 - 48)) as nat
    }
}

/// A numeral spells its number.
pub proof fn lemma_decimal_value(n: nat)
    ensures
        decimal_value(decimal_text(n)) == n,
    decreases n,
{
    let s = decimal_text(n);
    if n < 10 {
        assert(s.drop_last() =~= Seq::<char>::empty());
        assert(decimal_value(s.drop_last()) == 0);
        assert(s.last() == digit_char(n as int));
    } else {
        lemma_decimal_value(n / 10);
        assert(s.drop_last() =~= decimal_text(n / 10));
        assert(s.last() == digit_char((n % 10) as int));
    }
}

/// Different numbers have different numerals.
pub proof fn lemma_decimal_text_injective(a: nat, b: nat)
    requires
        decimal_text(a) == decimal_text(b),
    ensures
        a == b,
{
    lemma_decimal_value(a);
    lemma_decimal_value(b);
}

fn digit_of(d: usize) -> (c: char)
    requires
        d < 10,
    ensures
        c == digit_char(d as int),
{
    if d == 0 {
        '0'
    } else if d == 1 {
        '1'
    } else if d == 2 {
        '2'
    } else if d == 3 {
        '3'
    } else if d == 4 {
        '4'
    } else if d == 5 {
        '5'
    } else if d == 6 {
        '6'
    } else if d == 7 {
        '7'
    } else if d == 8 {
        '8'
    } else {
        '9'
    }
}

/// Appends the decimal numeral of `n`.
pub fn push_decimal(out: &mut String, n: usize)
    ensures
        final(out)@ == old(out)@ + decimal_text(n as nat),
    decreases n,
{
    if n >= 10 {
        push_decimal(out, n / 10);
    }
    push_char(out, digit_of(n % 10));
    proof {
        if n >= 10 {
            assert(old(out)@ + decimal_text(n as nat) =~= (old(out)@ + decimal_text(
                (n / 10) as nat,
            )).push(digit_char((n % 10) as int)));
        } else {
            assert(old(out)@ + decimal_text(n as nat) =~= old(out)@.push(digit_char(n as int)));
        }
    }
}

/// Appends the decimal numeral of `n`.
pub fn push_decimal_wide(out: &mut String, n: u64)
    ensures
        final(out)@ == old(out)@ + decimal_text(n as nat),
    decreases n,
{
    if n >= 10 {
        push_decimal_wide(out, n / 10);
    }
    let d = n % 10;
    assert(d < 10);
    let digit: usize = if d == 0 {
        0
    } else if d == 1 {
        1
    } else if d == 2 {
        2
    } else if d == 3 {
        3
    } else if d == 4 {
        4
    } else if d == 5 {
        5
    } else if d == 6 {
        6
    } else if d == 7 {
        7
    } else if d == 8 {
        8
    } else {
        9
    };
    push_char(out, digit_of(digit));
    proof {
        if n >= 10 {
            assert(old(out)@ + decimal_text(n as nat) =~= (old(out)@ + decimal_text(
                (n / 10) as nat,
            )).push(digit_char((n % 10) as int)));
        } else {
            assert(old(out)@ + decimal_text(n as nat) =~= old(out)@.push(digit_char(n as int)));
        }
    }
}

/// The pieces put one behind the other with `separator` between each two.
pub open spec fn joined(pieces: Seq<Seq<char>>, separator: Seq<char>) -> Seq<char>
    decreases pieces.len(),
{
    if pieces.len() == 0 {
        Seq::empty()
    } else if pieces.len() == 1 {
        pieces[0]
    } else {
        joined(pieces.drop_last(), separator) + separator + pieces.last()
    }
}

/// The views of a list of texts.
pub open spec fn text_views(pieces: Seq<String>) -> Seq<Seq<char>> {
    Seq::new(pieces.len(), |i: int| pieces[i]@)
}

pub proof fn lemma_text_views_push(pieces: Seq<String>, piece: String)
    ensures
        text_views(pieces.push(piece)) == text_views(pieces).push(piece@),
{
    assert(text_views(pieces.push(piece)) =~= text_views(pieces).push(piece@));
}

/// Joins the pieces with `separator` between each two.
pub fn join(pieces: &Vec<String>, separator: &str) -> (out: String)
    ensures
        out@ == joined(text_views(pieces@), separator@),
{
    let mut out = String::new();
    let ghost views = text_views(pieces@);
    let mut i: usize = 0;
    assert(views.take(0) =~= Seq::<Seq<char>>::empty());
    while i < pieces.len()
        invariant
            i <= pieces.len(),
            views == text_views(pieces@),
            out@ == joined(views.take(i as int), separator@),
        decreases pieces.len() - i,
    {
        proof {
            assert(views.take(i + 1).drop_last() == views.take(i as int));
            assert(views.take(i + 1).last() == pieces@[i as int]@);
            if i == 0 {
                assert(views.take(1)[0] == pieces@[0]@);
                assert(Seq::<char>::empty() + pieces@[0]@ =~= pieces@[0]@);
            }
        }
        if i > 0 {
            out.append(separator);
        }
        out.append(pieces[i].as_str());
        i += 1;
    }
    assert(views.take(pieces@.len() as int) == views);
    out
}

/// What `char::is_whitespace` answers for a character outside ASCII: the
/// Unicode tables of the standard library decide it.
pub uninterp spec fn unicode_whitespace(c: char) -> bool;

/// Blank, tab, line feed, vertical tab, form feed or carriage return.
pub open spec fn is_ascii_whitespace(c: char) -> bool {
    let u = c as u32;
    (9 <= u <= 13) || u == 32
}

/// White space in the sense of Unicode.
pub open spec fn is_whitespace(c: char) -> bool {
    if (c as u32) < 128 {
        is_ascii_whitespace(c)
    } else {
        unicode_whitespace(c)
    }
}

/// `char::is_whitespace`: within ASCII the blank and the characters from tab
/// to carriage return; beyond ASCII whatever the Unicode tables say, which is
/// left uninterpreted.
#[verifier::external_body]
pub(crate) fn char_is_whitespace(c: char) -> (r: bool)
    ensures
        r == (if (c as u32) < 128 {
            is_ascii_whitespace(c)
        } else {
            unicode_whitespace(c)
        }),
{
    c.is_whitespace()
}

/// The number of characters of white space at the start of the text.
pub open spec fn leading_whitespace(s: Seq<char>) -> nat
    decreases s.len(),
{
    if s.len() > 0 && is_whitespace(s[0]) {
        1 + leading_whitespace(s.drop_first())
    } else {
        0
    }
}

/// The number of characters of white space at the end of the text.
pub open spec fn trailing_whitespace(s: Seq<char>) -> nat
    decreases s.len(),
{
    if s.len() > 0 && is_whitespace(s.last()) {
        1 + trailing_whitespace(s.drop_last())
    } else {
        0
    }
}

/// The text without the white space at its start and at its end.
pub open spec fn trimmed(s: Seq<char>) -> Seq<char> {
    let rest = s.skip(leading_whitespace(s) as int);
    rest.take(rest.len() - trailing_whitespace(rest))
}

/// The characters from `from` to `to` without the white space at their start
/// and at their end.
pub(crate) fn trim_chars(s: &Vec<char>, from: usize, to: usize) -> (r: Vec<char>)
    requires
        from <= to <= s@.len(),
    ensures
        r@ == trimmed(s@.subrange(from as int, to as int)),
{
    let ghost piece = s@.subrange(from as int, to as int);
    let mut start = from;
    while start < to && char_is_whitespace(s[start])
        invariant
            from <= start <= to <= s@.len(),
            piece == s@.subrange(from as int, to as int),
            leading_whitespace(piece) == (start - from) + leading_whitespace(
                s@.subrange(start as int, to as int),
            ),
        decreases to - start,
    {
        proof {
            let rest = s@.subrange(start as int, to as int);
            assert(rest[0] == s@[start as int]);
            assert(rest.drop_first() =~= s@.subrange(start + 1, to as int));
        }
        start += 1;
    }
    proof {
        let rest = s@.subrange(start as int, to as int);
        if start < to {
            assert(rest[0] == s@[start as int]);
        }
        assert(leading_whitespace(rest) == 0);
        assert(piece.skip((start - from) as int) =~= rest);
    }
    let mut end = to;
    while end > start && char_is_whitespace(s[end - 1])
        invariant
            start <= end <= to <= s@.len(),
            trailing_whitespace(s@.subrange(start as int, to as int)) == (to - end)
                + trailing_whitespace(s@.subrange(start as int, end as int)),
        decreases end - start,
    {
        proof {
            let rest = s@.subrange(start as int, end as int);
            assert(rest.last() == s@[end - 1]);
            assert(rest.drop_last() =~= s@.subrange(start as int, end - 1));
        }
        end -= 1;
    }
    proof {
        let rest = s@.subrange(start as int, end as int);
        if end > start {
            assert(rest.last() == s@[end - 1]);
        }
        assert(trailing_whitespace(rest) == 0);
    }
    let mut out: Vec<char> = Vec::new();
    let mut i = start;
    while i < end
        invariant
            start <= i <= end <= s@.len(),
            out@ == s@.subrange(start as int, i as int),
        decreases end - i,
    {
        out.push(s[i]);
        i += 1;
    }
    proof {
        let rest = s@.subrange(start as int, to as int);
        assert(rest.take(rest.len() - (to - end)) =~= s@.subrange(start as int, end as int));
    }
    out
}

/// The pieces of `s` between the occurrences of `c`. There is always at
/// least one piece.
pub open spec fn split_on(s: Seq<char>, c: char) -> Seq<Seq<char>>
    decreases s.len(),
{
    if s.len() == 0 {
        seq![Seq::<char>::empty()]
    } else {
        let before = split_on(s.drop_last(), c);
        if s.last() == c {
            before.push(Seq::<char>::empty())
        } else {
            before.update(before.len() - 1, before.last().push(s.last()))
        }
    }
}

/// The number of times that `byte` occurs in `bytes`.
pub open spec fn count_byte(bytes: Seq<u8>, byte: u8) -> nat
    decreases bytes.len(),
{
    if bytes.len() == 0 {
        0
    } else {
        count_byte(bytes.drop_last(), byte) + if bytes.last() == byte {
            1nat
        } else {
            0nat
        }
    }
}

/// `memchr::memchr_iter` counted: the number of line feeds in the bytes.
#[verifier::external_body]
pub(crate) fn count_newlines(bytes: &[u8]) -> (r: usize)
    ensures
        r == count_byte(bytes@, 10),
{
    memchr::memchr_iter(b'\n', bytes).count()
}

} // verus!
