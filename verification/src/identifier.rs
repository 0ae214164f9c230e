use crate::text::{
    char_is_alphanumeric, chars_of, decimal_text, is_alphanumeric, push_char, push_decimal,
    string_of,
};
use crate::text::{
    lemma_boundary_between, lemma_encode_ascii, lemma_encode_concat, lemma_encode_injective,
};
use vstd::prelude::*;
use vstd::std_specs::cmp::PartialEqSpecImpl;
use vstd::string::StringSliceAdditionalSpecFns;
use vstd::utf8::{decode_utf8, encode_utf8, encode_utf8_decode_utf8};

verus! {

/// Why a piece of text is not an identifier.
#[derive(Debug, Clone, Copy, PartialEq, Eq, Structural)]
pub enum ParseIdentifierError {
    /// A character that may not stand in an unbracketed part.
    InvalidCharacter(char),
    /// An opening bracket without a closing one, or the reverse.
    InvalidBrackets,
    /// Fewer dot-separated parts than the kind of identifier needs.
    TooFewParts,
    /// More dot-separated parts than the kind of identifier allows; the number
    /// counts the parts beyond the first surplus one.
    TooManyParts(usize),
}

/// What is wrong with the identifier, in words.
pub open spec fn error_text(error: ParseIdentifierError) -> Seq<char> {
    match error {
        ParseIdentifierError::InvalidCharacter(c) => "invalid character '"@.push(c).push('\''),
        ParseIdentifierError::InvalidBrackets => "invalid brackets"@,
        ParseIdentifierError::TooFewParts => "too few parts"@,
        ParseIdentifierError::TooManyParts(n) => "too many parts ("@ + decimal_text(n as nat)
            + ")"@,
    }
}

impl ParseIdentifierError {
    /// What is wrong with the identifier, in words.
    pub fn message(&self) -> (r: String)
        ensures
            r@ == error_text(*self),
    {
        match self {
            ParseIdentifierError::InvalidCharacter(c) => {
                let mut out = "invalid character '".to_owned();
                push_char(&mut out, *c);
                push_char(&mut out, '\'');
                out
            },
            ParseIdentifierError::InvalidBrackets => "invalid brackets".to_owned(),
            ParseIdentifierError::TooFewParts => "too few parts".to_owned(),
            ParseIdentifierError::TooManyParts(n) => {
                let mut out = "too many parts (".to_owned();
                push_decimal(&mut out, *n);
                out.append(")");
                out
            },
        }
    }
}

/// Characters that may stand inside a part: letters, digits and `@ $ # _`.
pub open spec fn is_part_char(c: char) -> bool {
    is_alphanumeric(c) || c == '@' || c == '$' || c == '#' || c == '_'
}

/// The character at `i` is neither an opening bracket at the start, nor a
/// closing bracket at the end, nor a part character.
pub open spec fn bad_at(p: Seq<char>, i: int) -> bool {
    &&& !(i == 0 && p[i] == '[')
    &&& !(i == p.len() - 1 && p[i] == ']')
    &&& !is_part_char(p[i])
}

/// `i` is the position of the first offending character of `p`.
pub open spec fn is_first_bad(p: Seq<char>, i: int) -> bool {
    &&& 0 <= i < p.len()
    &&& bad_at(p, i)
    &&& forall|j: int| 0 <= j < i ==> !bad_at(p, j)
}

pub open spec fn starts_bracketed(p: Seq<char>) -> bool {
    p.len() > 0 && p[0] == '['
}

pub open spec fn ends_bracketed(p: Seq<char>) -> bool {
    p.len() > 0 && p[p.len() - 1] == ']'
}

/// `p` between square brackets.
pub open spec fn bracketed(p: Seq<char>) -> Seq<char> {
    seq!['['] + p + seq![']']
}

/// A part in normal form: it opens with a square bracket and closes with
/// one. What stands between the two is the name as it was given.
pub open spec fn is_normalized_part(p: Seq<char>) -> bool {
    &&& p.len() >= 2
    &&& p[0] == '['
    &&& p[p.len() - 1] == ']'
}

/// The text holds no dot.
pub open spec fn dotless(p: Seq<char>) -> bool {
    forall|i: int| 0 <= i < p.len() ==> p[i] != '.'
}

/// The part without its brackets.
pub open spec fn unescaped(p: Seq<char>) -> Seq<char> {
    p.subrange(1, p.len() - 1)
}

/// The normal form of one part: a part between brackets is kept as it is,
/// whatever it holds; a bare part of part characters gets brackets. In a part
/// that is not between brackets the first offending character is reported
/// before a bracket without its partner.
pub open spec fn normalize_part(p: Seq<char>) -> Result<Seq<char>, ParseIdentifierError> {
    if starts_bracketed(p) && ends_bracketed(p) {
        Ok(p)
    } else if exists|i: int| is_first_bad(p, i) {
        Err(ParseIdentifierError::InvalidCharacter(p[choose|i: int| is_first_bad(p, i)]))
    } else if !starts_bracketed(p) && !ends_bracketed(p) {
        Ok(bracketed(p))
    } else {
        Err(ParseIdentifierError::InvalidBrackets)
    }
}

/// Two first offending positions of one part coincide.
pub proof fn lemma_first_bad_unique(p: Seq<char>, i: int, j: int)
    requires
        is_first_bad(p, i),
        is_first_bad(p, j),
    ensures
        i == j,
{
    if i < j {
        assert(!bad_at(p, i));
    } else if j < i {
        assert(!bad_at(p, j));
    }
}

/// Whatever a part normalizes to is in normal form.
pub proof fn lemma_normalize_part_result(p: Seq<char>)
    ensures
        normalize_part(p) matches Ok(n) ==> is_normalized_part(n),
{
    if starts_bracketed(p) && ends_bracketed(p) {
        if p.len() == 1 {
            assert(p[0] == '[' && p[0] == ']');
        }
    }
}

/// A bare part normalizes exactly when all its characters are part
/// characters, and then to itself between brackets.
pub proof fn lemma_normalize_bare(p: Seq<char>)
    requires
        !starts_bracketed(p),
        !ends_bracketed(p),
    ensures
        (forall|i: int| 0 <= i < p.len() ==> is_part_char(p[i])) ==> normalize_part(p) == Ok::<
            Seq<char>,
            ParseIdentifierError,
        >(bracketed(p)),
        !(forall|i: int| 0 <= i < p.len() ==> is_part_char(p[i])) ==> normalize_part(p) is Err,
{
    if forall|i: int| 0 <= i < p.len() ==> is_part_char(p[i]) {
        assert(forall|i: int| !is_first_bad(p, i));
    } else {
        let k = choose|i: int| 0 <= i < p.len() && !is_part_char(p[i]);
        assert(bad_at(p, k));
        lemma_least_bad(p, k);
    }
}

/// Where some character offends, a first one does.
pub proof fn lemma_least_bad(p: Seq<char>, k: int)
    requires
        0 <= k < p.len(),
        bad_at(p, k),
    ensures
        exists|i: int| is_first_bad(p, i),
    decreases k,
{
    if forall|j: int| 0 <= j < k ==> !bad_at(p, j) {
        assert(is_first_bad(p, k));
    } else {
        let j = choose|j: int| 0 <= j < k && bad_at(p, j);
        lemma_least_bad(p, j);
    }
}

/// Normalizing is idempotent: a part in normal form is its own normal form.
pub proof fn lemma_normalize_part_idempotent(p: Seq<char>)
    requires
        is_normalized_part(p),
    ensures
        normalize_part(p) == Ok::<Seq<char>, ParseIdentifierError>(p),
{
}

/// The normal form of a part without a dot holds none.
pub proof fn lemma_normalize_dotless(p: Seq<char>)
    requires
        dotless(p),
    ensures
        normalize_part(p) matches Ok(n) ==> dotless(n),
{
    if let Ok(n) = normalize_part(p) {
        if !(starts_bracketed(p) && ends_bracketed(p)) {
            assert forall|i: int| 0 <= i < n.len() implies n[i] != '.' by {
                if 0 < i < n.len() - 1 {
                    assert(n[i] == p[i - 1]);
                }
            }
        }
    }
}

fn is_part_char_exec(c: char) -> (r: bool)
    ensures
        r == is_part_char(c),
{
    char_is_alphanumeric(c) || c == '@' || c == '$' || c == '#' || c == '_'
}

/// Normalizes the characters of one part.
pub fn normalize_chars(p: &Vec<char>) -> (r: Result<Vec<char>, ParseIdentifierError>)
    ensures
        match normalize_part(p@) {
            Ok(n) => r matches Ok(v) && v@ == n,
            Err(e) => r matches Err(x) && x == e,
        },
{
    let n = p.len();
    let start = n > 0 && p[0] == '[';
    let end = n > 0 && p[n - 1] == ']';
    if start && end {
        let mut out: Vec<char> = Vec::new();
        let mut k: usize = 0;
        while k < n
            invariant
                n == p.len(),
                k <= n,
                out@ == p@.take(k as int),
            decreases n - k,
        {
            out.push(p[k]);
            k += 1;
        }
        assert(p@.take(n as int) == p@);
        return Ok(out);
    }
    let mut i: usize = 0;
    while i < n
        invariant
            n == p.len(),
            i <= n,
            !(starts_bracketed(p@) && ends_bracketed(p@)),
            forall|j: int| 0 <= j < i ==> !bad_at(p@, j),
        decreases n - i,
    {
        let c = p[i];
        if !(i == 0 && c == '[') && !(i + 1 == n && c == ']') && !is_part_char_exec(c) {
            proof {
                assert(is_first_bad(p@, i as int));
                let k = choose|k: int| is_first_bad(p@, k);
                lemma_first_bad_unique(p@, i as int, k);
            }
            return Err(ParseIdentifierError::InvalidCharacter(c));
        }
        i += 1;
    }
    assert(!exists|k: int| is_first_bad(p@, k));
    if !start && !end {
        let mut out: Vec<char> = Vec::new();
        out.push('[');
        let mut k: usize = 0;
        while k < n
            invariant
                n == p.len(),
                k <= n,
                out@ == seq!['['] + p@.take(k as int),
            decreases n - k,
        {
            out.push(p[k]);
            k += 1;
        }
        assert(p@.take(n as int) == p@);
        out.push(']');
        assert(out@ == bracketed(p@));
        Ok(out)
    } else {
        Err(ParseIdentifierError::InvalidBrackets)
    }
}

/// Normalizes one part of an identifier.
pub fn normalize_identifier_part(part: &str) -> (r: Result<String, ParseIdentifierError>)
    ensures
        match normalize_part(part@) {
            Ok(n) => r matches Ok(s) && s@ == n,
            Err(e) => r matches Err(x) && x == e,
        },
{
    let chars = chars_of(part);
    match normalize_chars(&chars) {
        Ok(v) => Ok(string_of(&v)),
        Err(e) => Err(e),
    }
}

/// The pieces of `s` between its dots. There is always at least one piece; a
/// text without a dot is its own single piece.
pub open spec fn split_dots(s: Seq<char>) -> Seq<Seq<char>>
    decreases s.len(),
{
    if s.len() == 0 {
        seq![Seq::<char>::empty()]
    } else {
        let before = split_dots(s.drop_last());
        if s.last() == '.' {
            before.push(Seq::<char>::empty())
        } else {
            before.update(before.len() - 1, before.last().push(s.last()))
        }
    }
}

pub proof fn lemma_split_dots_len(s: Seq<char>)
    ensures
        split_dots(s).len() >= 1,
    decreases s.len(),
{
    if s.len() > 0 {
        lemma_split_dots_len(s.drop_last());
    }
}

/// Appending a text without dots extends the last piece.
pub proof fn lemma_split_dots_append(a: Seq<char>, b: Seq<char>)
    requires
        forall|i: int| 0 <= i < b.len() ==> b[i] != '.',
    ensures
        split_dots(a + b).len() == split_dots(a).len(),
        split_dots(a + b) == split_dots(a).update(
            split_dots(a).len() - 1,
            split_dots(a).last() + b,
        ),
    decreases b.len(),
{
    lemma_split_dots_len(a);
    if b.len() == 0 {
        assert(a + b == a);
        assert(split_dots(a).last() + b == split_dots(a).last());
        assert(split_dots(a).update(split_dots(a).len() - 1, split_dots(a).last())
            == split_dots(a));
    } else {
        let b0 = b.drop_last();
        lemma_split_dots_append(a, b0);
        assert((a + b).drop_last() == a + b0);
        assert((a + b).last() == b.last());
        assert(b[b.len() - 1] != '.');
        let pa = split_dots(a);
        assert((pa.last() + b0).push(b.last()) == pa.last() + b);
        assert(split_dots(a + b) == pa.update(pa.len() - 1, pa.last() + b));
    }
}

/// A dot starts a new, empty piece.
pub proof fn lemma_split_dots_dot(a: Seq<char>)
    ensures
        split_dots(a.push('.')) == split_dots(a).push(Seq::<char>::empty()),
{
    assert(a.push('.').drop_last() == a);
}

/// A text without dots is one piece.
pub proof fn lemma_split_dots_single(b: Seq<char>)
    requires
        forall|i: int| 0 <= i < b.len() ==> b[i] != '.',
    ensures
        split_dots(b) == seq![b],
{
    let e = Seq::<char>::empty();
    lemma_split_dots_append(e, b);
    assert(e + b == b);
    assert(split_dots(e) == seq![e]);
    assert(seq![e].update(0, e + b) == seq![b]);
}

/// No piece between the dots of a text holds a dot.
pub proof fn lemma_split_dots_dotless(s: Seq<char>, k: int)
    requires
        0 <= k < split_dots(s).len(),
    ensures
        dotless(split_dots(s)[k]),
    decreases s.len(),
{
    if s.len() > 0 {
        let before = split_dots(s.drop_last());
        lemma_split_dots_len(s.drop_last());
        if s.last() == '.' {
            if k < before.len() {
                lemma_split_dots_dotless(s.drop_last(), k);
            }
        } else {
            if k < before.len() - 1 {
                lemma_split_dots_dotless(s.drop_last(), k);
            } else {
                lemma_split_dots_dotless(s.drop_last(), before.len() - 1);
            }
        }
    }
}

/// Splits the characters `s` at each dot.
pub fn split_at_dots(s: &Vec<char>) -> (parts: Vec<Vec<char>>)
    ensures
        parts@.len() == split_dots(s@).len(),
        parts@.len() >= 1,
        forall|k: int| 0 <= k < parts@.len() ==> (#[trigger] parts@[k])@ == split_dots(s@)[k],
{
    let mut parts: Vec<Vec<char>> = Vec::new();
    let mut current: Vec<char> = Vec::new();
    let mut i: usize = 0;
    let n = s.len();
    while i < n
        invariant
            n == s.len(),
            i <= n,
            parts@.len() + 1 == split_dots(s@.take(i as int)).len(),
            forall|k: int|
                0 <= k < parts@.len() ==> (#[trigger] parts@[k])@ == split_dots(
                    s@.take(i as int),
                )[k],
            current@ == split_dots(s@.take(i as int)).last(),
        decreases n - i,
    {
        let c = s[i];
        proof {
            assert(s@.take(i + 1).drop_last() == s@.take(i as int));
            assert(s@.take(i + 1).last() == c);
        }
        if c == '.' {
            parts.push(current);
            current = Vec::new();
        } else {
            current.push(c);
        }
        i += 1;
    }
    assert(s@.take(n as int) == s@);
    parts.push(current);
    parts
}

/// The schema that a table named without one belongs to.
pub open spec fn default_schema() -> Seq<char> {
    seq!['[', 'd', 'b', 'o', ']']
}

/// What a table identifier stands for: two parts in normal form.
pub struct TableName {
    pub schema: Seq<char>,
    pub table: Seq<char>,
}

/// What a column identifier stands for: three parts in normal form.
pub struct ColumnName {
    pub schema: Seq<char>,
    pub table: Seq<char>,
    pub column: Seq<char>,
}

impl TableName {
    pub open spec fn wf(self) -> bool {
        is_normalized_part(self.schema) && is_normalized_part(self.table)
    }

    /// The full text: schema, dot, table.
    pub open spec fn full(self) -> Seq<char> {
        self.schema + seq!['.'] + self.table
    }
}

impl ColumnName {
    pub open spec fn wf(self) -> bool {
        &&& is_normalized_part(self.schema)
        &&& is_normalized_part(self.table)
        &&& is_normalized_part(self.column)
    }

    /// The table that the column belongs to.
    pub open spec fn table_name(self) -> TableName {
        TableName { schema: self.schema, table: self.table }
    }

    /// The full text: schema, dot, table, dot, column.
    pub open spec fn full(self) -> Seq<char> {
        self.schema + seq!['.'] + self.table + seq!['.'] + self.column
    }
}

/// What parsing a table identifier yields: one part names a table of the
/// default schema, two parts name schema and table. A part that does not
/// normalize is reported first, in order; a third part is one too many.
pub open spec fn parse_table(s: Seq<char>) -> Result<TableName, ParseIdentifierError> {
    let parts = split_dots(s);
    match normalize_part(parts[0]) {
        Err(e) => Err(e),
        Ok(first) => if parts.len() == 1 {
            Ok(TableName { schema: default_schema(), table: first })
        } else {
            match normalize_part(parts[1]) {
                Err(e) => Err(e),
                Ok(second) => if parts.len() == 2 {
                    Ok(TableName { schema: first, table: second })
                } else {
                    Err(ParseIdentifierError::TooManyParts((parts.len() - 3) as usize))
                },
            }
        },
    }
}

/// What parsing a column identifier yields: two parts name table and column of
/// the default schema, three parts name schema, table and column.
pub open spec fn parse_column(s: Seq<char>) -> Result<ColumnName, ParseIdentifierError> {
    let parts = split_dots(s);
    match normalize_part(parts[0]) {
        Err(e) => Err(e),
        Ok(first) => if parts.len() == 1 {
            Err(ParseIdentifierError::TooFewParts)
        } else {
            match normalize_part(parts[1]) {
                Err(e) => Err(e),
                Ok(second) => if parts.len() == 2 {
                    Ok(ColumnName { schema: default_schema(), table: first, column: second })
                } else {
                    match normalize_part(parts[2]) {
                        Err(e) => Err(e),
                        Ok(third) => if parts.len() == 3 {
                            Ok(ColumnName { schema: first, table: second, column: third })
                        } else {
                            Err(ParseIdentifierError::TooManyParts((parts.len() - 4) as usize))
                        },
                    }
                },
            }
        },
    }
}

/// The text that the bytes of `full` from `start` up to `end` spell.
pub open spec fn text_between(full: Seq<char>, start: int, end: int) -> Seq<char> {
    decode_utf8(encode_utf8(full).subrange(start, end))
}

/// The table name that a full text spells where the dot between schema and
/// table stands behind `separator` bytes.
pub open spec fn table_name_at(full: Seq<char>, separator: int) -> TableName {
    TableName {
        schema: text_between(full, 0, separator),
        table: text_between(full, separator + 1, encode_utf8(full).len() as int),
    }
}

/// The column name that a full text spells where its two dots stand behind
/// `first` and behind `second` bytes.
pub open spec fn column_name_at(full: Seq<char>, first: int, second: int) -> ColumnName {
    ColumnName {
        schema: text_between(full, 0, first),
        table: text_between(full, first + 1, second),
        column: text_between(full, second + 1, encode_utf8(full).len() as int),
    }
}

/// The full text of a table name, cut behind its schema, spells that name.
pub proof fn lemma_table_name_at(name: TableName)
    ensures
        table_name_at(name.full(), encode_utf8(name.schema).len() as int) == name,
{
    let dot = seq!['.'];
    let k = encode_utf8(name.schema).len() as int;
    let bytes = encode_utf8(name.full());
    lemma_encode_concat(name.schema, dot);
    lemma_encode_concat(name.schema + dot, name.table);
    lemma_encode_ascii('.');
    assert(bytes.subrange(0, k) =~= encode_utf8(name.schema));
    assert(bytes.subrange(k + 1, bytes.len() as int) =~= encode_utf8(name.table));
    encode_utf8_decode_utf8(name.schema);
    encode_utf8_decode_utf8(name.table);
}

/// The full text of a column name, cut behind its schema and behind its
/// table, spells that name.
pub proof fn lemma_column_name_at(name: ColumnName)
    ensures
        column_name_at(
            name.full(),
            encode_utf8(name.schema).len() as int,
            encode_utf8(name.table_name().full()).len() as int,
        ) == name,
{
    let dot = seq!['.'];
    let front = name.table_name().full();
    let k = encode_utf8(name.schema).len() as int;
    let m = encode_utf8(front).len() as int;
    let bytes = encode_utf8(name.full());
    lemma_encode_concat(name.schema, dot);
    lemma_encode_concat(name.schema + dot, name.table);
    lemma_encode_concat(front, dot);
    lemma_encode_concat(front + dot, name.column);
    lemma_encode_ascii('.');
    assert(bytes.subrange(0, k) =~= encode_utf8(name.schema));
    assert(bytes.subrange(k + 1, m) =~= encode_utf8(name.table));
    assert(bytes.subrange(m + 1, bytes.len() as int) =~= encode_utf8(name.column));
    encode_utf8_decode_utf8(name.schema);
    encode_utf8_decode_utf8(name.table);
    encode_utf8_decode_utf8(name.column);
}

/// The name of a database: one part in normal form.
#[derive(Debug, Hash)]
pub struct DatabaseIdentifier {
    full: String,
}

/// The name of a schema: one part in normal form.
#[derive(Debug, Hash)]
pub struct SchemaIdentifier {
    full: String,
}

/// The name of a table with its schema. `separator_schema_table` is the
/// position of the dot between the two, counted in bytes.
#[derive(Debug, Hash)]
pub struct TableIdentifier {
    full: String,
    separator_schema_table: usize,
}

/// The name of a column with its table and schema. The two separators are the
/// positions of the dots, counted in bytes.
#[derive(Debug, Hash)]
pub struct ColumnIdentifier {
    full: String,
    separator_schema_table: usize,
    separator_table_column: usize,
}

impl View for DatabaseIdentifier {
    type V = Seq<char>;

    closed spec fn view(&self) -> Seq<char> {
        self.full@
    }
}

impl View for SchemaIdentifier {
    type V = Seq<char>;

    closed spec fn view(&self) -> Seq<char> {
        self.full@
    }
}

impl View for TableIdentifier {
    type V = TableName;

    closed spec fn view(&self) -> TableName {
        table_name_at(self.full@, self.separator_schema_table as int)
    }
}

impl View for ColumnIdentifier {
    type V = ColumnName;

    closed spec fn view(&self) -> ColumnName {
        column_name_at(
            self.full@,
            self.separator_schema_table as int,
            self.separator_table_column as int,
        )
    }
}

fn default_schema_chars() -> (v: Vec<char>)
    ensures
        v@ == default_schema(),
        is_normalized_part(v@),
{
    let mut v: Vec<char> = Vec::new();
    v.push('[');
    v.push('d');
    v.push('b');
    v.push('o');
    v.push(']');
    assert(v@ == default_schema());
    proof {
        lemma_default_schema_normalized();
    }
    v
}

pub proof fn lemma_default_schema_normalized()
    ensures
        is_normalized_part(default_schema()),
        dotless(default_schema()),
{
}

fn append_chars(out: &mut Vec<char>, v: &Vec<char>)
    ensures
        final(out)@ == old(out)@ + v@,
{
    let mut k: usize = 0;
    let n = v.len();
    while k < n
        invariant
            n == v.len(),
            k <= n,
            out@ == old(out)@ + v@.take(k as int),
        decreases n - k,
    {
        out.push(v[k]);
        k += 1;
    }
    assert(v@.take(n as int) == v@);
}

impl DatabaseIdentifier {
    #[verifier::type_invariant]
    pub closed spec fn inv(&self) -> bool {
        is_normalized_part(self.full@)
    }

    /// Reads a database identifier: the whole text is its one part.
    pub fn parse(identifier: &str) -> (r: Result<DatabaseIdentifier, ParseIdentifierError>)
        ensures
            match normalize_part(identifier@) {
                Ok(n) => r matches Ok(d) && d@ == n,
                Err(e) => r matches Err(x) && x == e,
            },
    {
        proof {
            lemma_normalize_part_result(identifier@);
        }
        match normalize_identifier_part(identifier) {
            Ok(full) => Ok(DatabaseIdentifier { full }),
            Err(e) => Err(e),
        }
    }

    /// The text as it is shown.
    pub fn display(&self) -> (r: String)
        ensures
            r@ == self@,
    {
        self.full.clone()
    }
}

impl SchemaIdentifier {
    #[verifier::type_invariant]
    pub closed spec fn inv(&self) -> bool {
        is_normalized_part(self.full@)
    }

    /// Reads a schema identifier: the whole text is its one part.
    pub fn parse(identifier: &str) -> (r: Result<SchemaIdentifier, ParseIdentifierError>)
        ensures
            match normalize_part(identifier@) {
                Ok(n) => r matches Ok(d) && d@ == n,
                Err(e) => r matches Err(x) && x == e,
            },
    {
        proof {
            lemma_normalize_part_result(identifier@);
        }
        match normalize_identifier_part(identifier) {
            Ok(full) => Ok(SchemaIdentifier { full }),
            Err(e) => Err(e),
        }
    }

    /// The schema of a table.
    pub fn from_table(table: &TableIdentifier) -> (r: SchemaIdentifier)
        ensures
            r@ == table@.schema,
    {
        proof {
            use_type_invariant(table);
        }
        SchemaIdentifier { full: table.schema().to_owned() }
    }

    /// The schema of a column.
    pub fn from_column(column: &ColumnIdentifier) -> (r: SchemaIdentifier)
        ensures
            r@ == column@.schema,
    {
        proof {
            use_type_invariant(column);
        }
        SchemaIdentifier { full: column.schema().to_owned() }
    }

    /// The text as it is shown.
    pub fn display(&self) -> (r: String)
        ensures
            r@ == self@,
    {
        self.full.clone()
    }

    /// The schema is in normal form.
    pub fn well_formed(&self)
        ensures
            is_normalized_part(self@),
    {
        proof {
            use_type_invariant(self);
        }
    }
}

impl TableIdentifier {
    #[verifier::type_invariant]
    pub closed spec fn inv(&self) -> bool {
        &&& self@.wf()
        &&& self.full@ == self@.full()
        &&& self.separator_schema_table == encode_utf8(self@.schema).len()
    }

    fn assemble(schema: &Vec<char>, table: &Vec<char>) -> (r: TableIdentifier)
        requires
            is_normalized_part(schema@),
            is_normalized_part(table@),
        ensures
            r@ == (TableName { schema: schema@, table: table@ }),
    {
        let mut text = string_of(schema);
        let separator = text.as_str().as_bytes().len();
        assert(separator == encode_utf8(schema@).len());
        text.append(".");
        text.append(string_of(table).as_str());
        proof {
            reveal_strlit(".");
            assert("."@ =~= seq!['.']);
            let name = TableName { schema: schema@, table: table@ };
            assert(text@ =~= name.full());
            lemma_table_name_at(name);
            assert(table_name_at(text@, separator as int) == name);
        }
        TableIdentifier { full: text, separator_schema_table: separator }
    }

    /// Reads a table identifier of one or two dot-separated parts.
    pub fn parse(identifier: &str) -> (r: Result<TableIdentifier, ParseIdentifierError>)
        ensures
            match parse_table(identifier@) {
                Ok(name) => r matches Ok(t) && t@ == name,
                Err(e) => r matches Err(x) && x == e,
            },
    {
        let chars = chars_of(identifier);
        let parts = split_at_dots(&chars);
        proof {
            lemma_normalize_part_result(split_dots(identifier@)[0]);
            if parts@.len() > 1 {
                lemma_normalize_part_result(split_dots(identifier@)[1]);
            }
        }
        let first = match normalize_chars(&parts[0]) {
            Ok(v) => v,
            Err(e) => {
                return Err(e);
            },
        };
        if parts.len() == 1 {
            let schema = default_schema_chars();
            return Ok(TableIdentifier::assemble(&schema, &first));
        }
        let second = match normalize_chars(&parts[1]) {
            Ok(v) => v,
            Err(e) => {
                return Err(e);
            },
        };
        if parts.len() == 2 {
            Ok(TableIdentifier::assemble(&first, &second))
        } else {
            Err(ParseIdentifierError::TooManyParts(parts.len() - 3))
        }
    }

    /// The table `table` of the schema `schema`.
    pub fn with_schema(schema: &SchemaIdentifier, table: &str) -> (r: Result<
        TableIdentifier,
        ParseIdentifierError,
    >)
        ensures
            match normalize_part(table@) {
                Ok(n) => r matches Ok(t) && t@ == (TableName { schema: schema@, table: n }),
                Err(e) => r matches Err(x) && x == e,
            },
    {
        proof {
            use_type_invariant(schema);
            lemma_normalize_part_result(table@);
        }
        let table_chars = chars_of(table);
        match normalize_chars(&table_chars) {
            Ok(part) => {
                let schema_chars = chars_of(schema.full.as_str());
                Ok(TableIdentifier::assemble(&schema_chars, &part))
            },
            Err(e) => Err(e),
        }
    }

    /// The table of a column.
    pub fn from_column(column: &ColumnIdentifier) -> (r: TableIdentifier)
        ensures
            r@ == column@.table_name(),
    {
        proof {
            use_type_invariant(column);
            lemma_table_name_at(column@.table_name());
        }
        let text = column.table().to_owned();
        TableIdentifier { full: text, separator_schema_table: column.separator_schema_table }
    }

    /// The schema part, brackets included.
    pub fn schema(&self) -> (r: &str)
        ensures
            r@ == self@.schema,
    {
        proof {
            use_type_invariant(self);
            let rest = seq!['.'] + self@.table;
            assert(self.full@ =~= self@.schema + rest);
            lemma_boundary_between(self@.schema, rest);
            lemma_encode_concat(self@.schema, rest);
        }
        let (head, _) = self.full.as_str().split_at(self.separator_schema_table);
        proof {
            let bytes = encode_utf8(self.full@);
            assert(bytes.subrange(0, self.separator_schema_table as int) =~= encode_utf8(
                self@.schema,
            ));
            lemma_encode_injective(head@, self@.schema);
        }
        head
    }

    /// The text as it is shown: the full text.
    pub fn display(&self) -> (r: String)
        ensures
            r@ == self@.full(),
    {
        self.full().to_owned()
    }

    /// Both parts are in normal form.
    pub fn well_formed(&self)
        ensures
            self@.wf(),
    {
        proof {
            use_type_invariant(self);
        }
    }
}

impl ColumnIdentifier {
    #[verifier::type_invariant]
    pub closed spec fn inv(&self) -> bool {
        &&& self@.wf()
        &&& self.full@ == self@.full()
        &&& self.separator_schema_table == encode_utf8(self@.schema).len()
        &&& self.separator_table_column == encode_utf8(self@.table_name().full()).len()
    }

    fn assemble(schema: &Vec<char>, table: &Vec<char>, column: &Vec<char>) -> (r: ColumnIdentifier)
        requires
            is_normalized_part(schema@),
            is_normalized_part(table@),
            is_normalized_part(column@),
        ensures
            r@ == (ColumnName { schema: schema@, table: table@, column: column@ }),
    {
        let mut text = string_of(schema);
        let first = text.as_str().as_bytes().len();
        assert(first == encode_utf8(schema@).len());
        text.append(".");
        text.append(string_of(table).as_str());
        let second = text.as_str().as_bytes().len();
        proof {
            reveal_strlit(".");
            assert("."@ =~= seq!['.']);
            assert(text@ =~= schema@ + seq!['.'] + table@);
            assert(second == encode_utf8(schema@ + seq!['.'] + table@).len());
        }
        text.append(".");
        text.append(string_of(column).as_str());
        proof {
            let name = ColumnName { schema: schema@, table: table@, column: column@ };
            assert(text@ =~= name.full());
            assert(name.table_name().full() == schema@ + seq!['.'] + table@);
            lemma_column_name_at(name);
            assert(column_name_at(text@, first as int, second as int) == name);
        }
        ColumnIdentifier {
            full: text,
            separator_schema_table: first,
            separator_table_column: second,
        }
    }

    /// Reads a column identifier of two or three dot-separated parts.
    pub fn parse(identifier: &str) -> (r: Result<ColumnIdentifier, ParseIdentifierError>)
        ensures
            match parse_column(identifier@) {
                Ok(name) => r matches Ok(c) && c@ == name,
                Err(e) => r matches Err(x) && x == e,
            },
    {
        let chars = chars_of(identifier);
        let parts = split_at_dots(&chars);
        proof {
            lemma_normalize_part_result(split_dots(identifier@)[0]);
            if parts@.len() > 1 {
                lemma_normalize_part_result(split_dots(identifier@)[1]);
            }
            if parts@.len() > 2 {
                lemma_normalize_part_result(split_dots(identifier@)[2]);
            }
        }
        let first = match normalize_chars(&parts[0]) {
            Ok(v) => v,
            Err(e) => {
                return Err(e);
            },
        };
        if parts.len() == 1 {
            return Err(ParseIdentifierError::TooFewParts);
        }
        let second = match normalize_chars(&parts[1]) {
            Ok(v) => v,
            Err(e) => {
                return Err(e);
            },
        };
        if parts.len() == 2 {
            let schema = default_schema_chars();
            return Ok(ColumnIdentifier::assemble(&schema, &first, &second));
        }
        let third = match normalize_chars(&parts[2]) {
            Ok(v) => v,
            Err(e) => {
                return Err(e);
            },
        };
        if parts.len() == 3 {
            Ok(ColumnIdentifier::assemble(&first, &second, &third))
        } else {
            Err(ParseIdentifierError::TooManyParts(parts.len() - 4))
        }
    }

    /// The column `column` of the table `table`.
    pub fn with_table(table: &TableIdentifier, column: &str) -> (r: Result<
        ColumnIdentifier,
        ParseIdentifierError,
    >)
        ensures
            match normalize_part(column@) {
                Ok(n) => r matches Ok(c) && c@ == (ColumnName {
                    schema: table@.schema,
                    table: table@.table,
                    column: n,
                }),
                Err(e) => r matches Err(x) && x == e,
            },
    {
        proof {
            use_type_invariant(table);
            lemma_normalize_part_result(column@);
        }
        let column_chars = chars_of(column);
        match normalize_chars(&column_chars) {
            Ok(part) => {
                let schema_chars = chars_of(table.schema());
                let table_chars = chars_of(table.part());
                Ok(ColumnIdentifier::assemble(&schema_chars, &table_chars, &part))
            },
            Err(e) => Err(e),
        }
    }

    /// The schema part, brackets included.
    pub fn schema(&self) -> (r: &str)
        ensures
            r@ == self@.schema,
    {
        proof {
            use_type_invariant(self);
            let rest = seq!['.'] + self@.table + seq!['.'] + self@.column;
            assert(self.full@ =~= self@.schema + rest);
            lemma_boundary_between(self@.schema, rest);
            lemma_encode_concat(self@.schema, rest);
        }
        let (head, _) = self.full.as_str().split_at(self.separator_schema_table);
        proof {
            let bytes = encode_utf8(self.full@);
            assert(bytes.subrange(0, self.separator_schema_table as int) =~= encode_utf8(
                self@.schema,
            ));
            lemma_encode_injective(head@, self@.schema);
        }
        head
    }

    /// Schema and table: the full text of the column's table.
    pub fn table(&self) -> (r: &str)
        ensures
            r@ == self@.table_name().full(),
    {
        proof {
            use_type_invariant(self);
            let front = self@.table_name().full();
            let rest = seq!['.'] + self@.column;
            assert(self.full@ =~= front + rest);
            lemma_boundary_between(front, rest);
            lemma_encode_concat(front, rest);
        }
        let (head, _) = self.full.as_str().split_at(self.separator_table_column);
        proof {
            let bytes = encode_utf8(self.full@);
            let front = self@.table_name().full();
            assert(bytes.subrange(0, self.separator_table_column as int) =~= encode_utf8(front));
            lemma_encode_injective(head@, front);
        }
        head
    }

    /// The text as it is shown: the column part alone.
    pub fn display(&self) -> (r: String)
        ensures
            r@ == self@.column,
    {
        self.part().to_owned()
    }

    /// All three parts are in normal form.
    pub fn well_formed(&self)
        ensures
            self@.wf(),
    {
        proof {
            use_type_invariant(self);
        }
    }
}

/// What stands between the brackets of a part in normal form.
fn between_brackets(part: &str) -> (r: &str)
    requires
        is_normalized_part(part@),
    ensures
        r@ == unescaped(part@),
{
    let ghost inner = unescaped(part@);
    let ghost closing = inner + seq![']'];
    proof {
        assert(part@ =~= seq!['['] + closing);
        lemma_boundary_between(seq!['['], closing);
        lemma_encode_concat(seq!['['], closing);
        lemma_encode_ascii('[');
    }
    let (_, tail) = part.split_at(1);
    proof {
        let bytes = encode_utf8(part@);
        assert(bytes.subrange(1, bytes.len() as int) =~= encode_utf8(closing));
        lemma_encode_injective(tail@, closing);
        lemma_boundary_between(inner, seq![']']);
        lemma_encode_concat(inner, seq![']']);
        lemma_encode_ascii(']');
    }
    let length = tail.as_bytes().len();
    let (head, _) = tail.split_at(length - 1);
    proof {
        let bytes = encode_utf8(closing);
        assert(bytes.subrange(0, length - 1) =~= encode_utf8(inner));
        lemma_encode_injective(head@, inner);
    }
    head
}

/// The part of `text` behind its first `separator` bytes and the dot that
/// follows them.
fn behind_dot<'a>(text: &'a str, separator: usize, Ghost(front): Ghost<Seq<char>>, Ghost(
    back,
): Ghost<Seq<char>>) -> (r: &'a str)
    requires
        text@ == front + seq!['.'] + back,
        separator == encode_utf8(front).len(),
    ensures
        r@ == back,
{
    proof {
        let head = front + seq!['.'];
        assert(text@ =~= head + back);
        lemma_boundary_between(head, back);
        lemma_encode_concat(head, back);
        lemma_encode_concat(front, seq!['.']);
        lemma_encode_ascii('.');
    }
    let length = text.as_bytes().len();
    proof {
        let head = front + seq!['.'];
        assert(encode_utf8(text@) == encode_utf8(head) + encode_utf8(back));
        assert(encode_utf8(head).len() == separator + 1);
        assert(length == encode_utf8(text@).len());
    }
    let (_, tail) = text.split_at(separator + 1);
    proof {
        let head = front + seq!['.'];
        let bytes = encode_utf8(text@);
        assert(bytes.subrange(separator + 1, bytes.len() as int) =~= encode_utf8(back));
        lemma_encode_injective(tail@, back);
    }
    tail
}

/// What every kind of identifier offers: its last part, its full text, and its
/// last part without the brackets.
pub trait Identifier: Sized {
    /// The last part, in normal form.
    spec fn part_text(&self) -> Seq<char>;

    /// The whole normalized text.
    spec fn full_text(&self) -> Seq<char>;

    fn part(&self) -> (r: &str)
        ensures
            r@ == self.part_text(),
            is_normalized_part(r@),
    ;

    fn full(&self) -> (r: &str)
        ensures
            r@ == self.full_text(),
    ;

    fn part_unescaped(&self) -> (r: &str)
        ensures
            r@ == unescaped(self.part_text()),
    ;
}

impl Identifier for DatabaseIdentifier {
    open spec fn part_text(&self) -> Seq<char> {
        self@
    }

    open spec fn full_text(&self) -> Seq<char> {
        self@
    }

    fn part(&self) -> (r: &str) {
        proof {
            use_type_invariant(self);
        }
        self.full.as_str()
    }

    fn full(&self) -> (r: &str) {
        self.full.as_str()
    }

    fn part_unescaped(&self) -> (r: &str) {
        between_brackets(self.part())
    }
}

impl Identifier for SchemaIdentifier {
    open spec fn part_text(&self) -> Seq<char> {
        self@
    }

    open spec fn full_text(&self) -> Seq<char> {
        self@
    }

    fn part(&self) -> (r: &str) {
        proof {
            use_type_invariant(self);
        }
        self.full.as_str()
    }

    fn full(&self) -> (r: &str) {
        self.full.as_str()
    }

    fn part_unescaped(&self) -> (r: &str) {
        between_brackets(self.part())
    }
}

impl Identifier for TableIdentifier {
    open spec fn part_text(&self) -> Seq<char> {
        self@.table
    }

    open spec fn full_text(&self) -> Seq<char> {
        self@.full()
    }

    fn part(&self) -> (r: &str) {
        proof {
            use_type_invariant(self);
        }
        behind_dot(
            self.full.as_str(),
            self.separator_schema_table,
            Ghost(self@.schema),
            Ghost(self@.table),
        )
    }

    fn full(&self) -> (r: &str) {
        proof {
            use_type_invariant(self);
        }
        self.full.as_str()
    }

    fn part_unescaped(&self) -> (r: &str) {
        between_brackets(self.part())
    }
}

impl Identifier for ColumnIdentifier {
    open spec fn part_text(&self) -> Seq<char> {
        self@.column
    }

    open spec fn full_text(&self) -> Seq<char> {
        self@.full()
    }

    fn part(&self) -> (r: &str) {
        proof {
            use_type_invariant(self);
        }
        behind_dot(
            self.full.as_str(),
            self.separator_table_column,
            Ghost(self@.table_name().full()),
            Ghost(self@.column),
        )
    }

    fn full(&self) -> (r: &str) {
        proof {
            use_type_invariant(self);
        }
        self.full.as_str()
    }

    fn part_unescaped(&self) -> (r: &str) {
        between_brackets(self.part())
    }
}

impl Clone for DatabaseIdentifier {
    fn clone(&self) -> (r: Self)
        ensures
            r == *self,
    {
        proof {
            use_type_invariant(self);
        }
        DatabaseIdentifier { full: self.full.clone() }
    }
}

impl Clone for SchemaIdentifier {
    fn clone(&self) -> (r: Self)
        ensures
            r == *self,
    {
        proof {
            use_type_invariant(self);
        }
        SchemaIdentifier { full: self.full.clone() }
    }
}

impl Clone for TableIdentifier {
    fn clone(&self) -> (r: Self)
        ensures
            r == *self,
    {
        proof {
            use_type_invariant(self);
        }
        TableIdentifier {
            full: self.full.clone(),
            separator_schema_table: self.separator_schema_table,
        }
    }
}

impl Clone for ColumnIdentifier {
    fn clone(&self) -> (r: Self)
        ensures
            r == *self,
    {
        proof {
            use_type_invariant(self);
        }
        ColumnIdentifier {
            full: self.full.clone(),
            separator_schema_table: self.separator_schema_table,
            separator_table_column: self.separator_table_column,
        }
    }
}

impl PartialEq for DatabaseIdentifier {
    fn eq(&self, other: &Self) -> (r: bool) {
        self.full == other.full
    }
}

impl PartialEqSpecImpl for DatabaseIdentifier {
    open spec fn obeys_eq_spec() -> bool {
        true
    }

    open spec fn eq_spec(&self, other: &Self) -> bool {
        self@ == other@
    }
}

impl Eq for DatabaseIdentifier {

}

impl PartialEq for SchemaIdentifier {
    fn eq(&self, other: &Self) -> (r: bool) {
        self.full == other.full
    }
}

impl PartialEqSpecImpl for SchemaIdentifier {
    open spec fn obeys_eq_spec() -> bool {
        true
    }

    open spec fn eq_spec(&self, other: &Self) -> bool {
        self@ == other@
    }
}

impl Eq for SchemaIdentifier {

}

impl PartialEq for TableIdentifier {
    /// Two tables are the same where their texts are and are cut into schema
    /// and table at the same place.
    fn eq(&self, other: &Self) -> (r: bool) {
        proof {
            use_type_invariant(self);
            use_type_invariant(other);
        }
        self.full == other.full && self.separator_schema_table == other.separator_schema_table
    }
}

impl PartialEqSpecImpl for TableIdentifier {
    open spec fn obeys_eq_spec() -> bool {
        true
    }

    open spec fn eq_spec(&self, other: &Self) -> bool {
        self@ == other@
    }
}

impl Eq for TableIdentifier {

}

impl PartialEq for ColumnIdentifier {
    /// Two columns are the same where their texts are and are cut into
    /// schema, table and column at the same places.
    fn eq(&self, other: &Self) -> (r: bool) {
        proof {
            use_type_invariant(self);
            use_type_invariant(other);
        }
        self.full == other.full && self.separator_schema_table == other.separator_schema_table
            && self.separator_table_column == other.separator_table_column
    }
}

impl PartialEqSpecImpl for ColumnIdentifier {
    open spec fn obeys_eq_spec() -> bool {
        true
    }

    open spec fn eq_spec(&self, other: &Self) -> bool {
        self@ == other@
    }
}

impl Eq for ColumnIdentifier {

}

impl TableName {
    /// Neither part holds a dot.
    pub open spec fn dotless(self) -> bool {
        dotless(self.schema) && dotless(self.table)
    }
}

impl ColumnName {
    /// No part holds a dot.
    pub open spec fn dotless(self) -> bool {
        dotless(self.schema) && dotless(self.table) && dotless(self.column)
    }
}

/// The full text of a table name without dots in its parts splits at its one
/// dot into schema and table.
pub proof fn lemma_table_full_splits(name: TableName)
    requires
        name.dotless(),
    ensures
        split_dots(name.full()) == seq![name.schema, name.table],
{
    let e = Seq::<char>::empty();
    lemma_split_dots_single(name.schema);
    lemma_split_dots_dot(name.schema);
    lemma_split_dots_append(name.schema.push('.'), name.table);
    assert(name.schema.push('.') + name.table == name.full());
    assert(e + name.table == name.table);
    assert(seq![name.schema].push(e).update(1, name.table) == seq![name.schema, name.table]);
}

/// The full text of a column name without dots in its parts splits at its two
/// dots into schema, table and column.
pub proof fn lemma_column_full_splits(name: ColumnName)
    requires
        name.dotless(),
    ensures
        split_dots(name.full()) == seq![name.schema, name.table, name.column],
{
    let e = Seq::<char>::empty();
    let t = name.table_name();
    lemma_table_full_splits(t);
    lemma_split_dots_dot(t.full());
    lemma_split_dots_append(t.full().push('.'), name.column);
    assert(t.full().push('.') + name.column == name.full());
    assert(e + name.column == name.column);
    assert(seq![name.schema, name.table].push(e).update(2, name.column) == seq![
        name.schema,
        name.table,
        name.column,
    ]);
}

/// Table names without dots in their parts are the same where their full
/// texts are.
pub proof fn lemma_table_text_decides(a: TableName, b: TableName)
    requires
        a.dotless(),
        b.dotless(),
        a.full() == b.full(),
    ensures
        a == b,
{
    lemma_table_full_splits(a);
    lemma_table_full_splits(b);
    let pieces = split_dots(a.full());
    assert(pieces[0] == a.schema && pieces[0] == b.schema);
    assert(pieces[1] == a.table && pieces[1] == b.table);
}

/// Column names without dots in their parts are the same where their full
/// texts are.
pub proof fn lemma_column_text_decides(a: ColumnName, b: ColumnName)
    requires
        a.dotless(),
        b.dotless(),
        a.full() == b.full(),
    ensures
        a == b,
{
    lemma_column_full_splits(a);
    lemma_column_full_splits(b);
    let pieces = split_dots(a.full());
    assert(pieces[0] == a.schema && pieces[0] == b.schema);
    assert(pieces[1] == a.table && pieces[1] == b.table);
    assert(pieces[2] == a.column && pieces[2] == b.column);
}

/// Whatever a part normalizes to normalizes to itself.
pub proof fn lemma_part_round_trip(s: Seq<char>)
    ensures
        normalize_part(s) matches Ok(n) ==> is_normalized_part(n) && normalize_part(n) == Ok::<
            Seq<char>,
            ParseIdentifierError,
        >(n),
{
    lemma_normalize_part_result(s);
    if let Ok(n) = normalize_part(s) {
        lemma_normalize_part_idempotent(n);
    }
}

/// The name that a text parses to is well formed and has no dot in its
/// parts, and its full text parses to the same name: the schema that was
/// defaulted is now spelled out.
pub proof fn lemma_table_round_trip(s: Seq<char>)
    ensures
        parse_table(s) matches Ok(name) ==> name.wf() && name.dotless() && parse_table(
            name.full(),
        ) == Ok::<TableName, ParseIdentifierError>(name),
{
    if let Ok(name) = parse_table(s) {
        let parts = split_dots(s);
        lemma_split_dots_len(s);
        lemma_normalize_part_result(parts[0]);
        lemma_split_dots_dotless(s, 0);
        lemma_normalize_dotless(parts[0]);
        if parts.len() > 1 {
            lemma_normalize_part_result(parts[1]);
            lemma_split_dots_dotless(s, 1);
            lemma_normalize_dotless(parts[1]);
        }
        lemma_default_schema_normalized();
        lemma_table_well_formed_parses(name);
    }
}

/// The full text of a well-formed table name parses to that name, where no
/// part of it holds a dot. (A dot between the brackets of a part would be
/// read as the end of that part.)
pub proof fn lemma_table_well_formed_parses(name: TableName)
    requires
        name.wf(),
        name.dotless(),
    ensures
        parse_table(name.full()) == Ok::<TableName, ParseIdentifierError>(name),
{
    lemma_table_full_splits(name);
    lemma_normalize_part_idempotent(name.schema);
    lemma_normalize_part_idempotent(name.table);
}

/// The name that a text parses to is well formed and has no dot in its
/// parts, and its full text parses to the same name.
pub proof fn lemma_column_round_trip(s: Seq<char>)
    ensures
        parse_column(s) matches Ok(name) ==> name.wf() && name.dotless() && parse_column(
            name.full(),
        ) == Ok::<ColumnName, ParseIdentifierError>(name),
{
    if let Ok(name) = parse_column(s) {
        let parts = split_dots(s);
        lemma_split_dots_len(s);
        lemma_normalize_part_result(parts[0]);
        lemma_split_dots_dotless(s, 0);
        lemma_normalize_dotless(parts[0]);
        if parts.len() > 1 {
            lemma_normalize_part_result(parts[1]);
            lemma_split_dots_dotless(s, 1);
            lemma_normalize_dotless(parts[1]);
        }
        if parts.len() > 2 {
            lemma_normalize_part_result(parts[2]);
            lemma_split_dots_dotless(s, 2);
            lemma_normalize_dotless(parts[2]);
        }
        lemma_default_schema_normalized();
        lemma_column_well_formed_parses(name);
    }
}

/// The full text of a well-formed column name parses to that name, where no
/// part of it holds a dot.
pub proof fn lemma_column_well_formed_parses(name: ColumnName)
    requires
        name.wf(),
        name.dotless(),
    ensures
        parse_column(name.full()) == Ok::<ColumnName, ParseIdentifierError>(name),
{
    lemma_column_full_splits(name);
    lemma_normalize_part_idempotent(name.schema);
    lemma_normalize_part_idempotent(name.table);
    lemma_normalize_part_idempotent(name.column);
}

impl std::str::FromStr for DatabaseIdentifier {
    type Err = ParseIdentifierError;

    /// Reads the identifier as `parse` does.
    fn from_str(identifier: &str) -> (r: Result<Self, Self::Err>)
        ensures
            match normalize_part(identifier@) {
                Ok(name) => r matches Ok(x) && x@ == name,
                Err(e) => r matches Err(x) && x == e,
            },
    {
        DatabaseIdentifier::parse(identifier)
    }
}

impl std::str::FromStr for SchemaIdentifier {
    type Err = ParseIdentifierError;

    /// Reads the identifier as `parse` does.
    fn from_str(identifier: &str) -> (r: Result<Self, Self::Err>)
        ensures
            match normalize_part(identifier@) {
                Ok(name) => r matches Ok(x) && x@ == name,
                Err(e) => r matches Err(x) && x == e,
            },
    {
        SchemaIdentifier::parse(identifier)
    }
}

impl std::str::FromStr for TableIdentifier {
    type Err = ParseIdentifierError;

    /// Reads the identifier as `parse` does.
    fn from_str(identifier: &str) -> (r: Result<Self, Self::Err>)
        ensures
            match parse_table(identifier@) {
                Ok(name) => r matches Ok(x) && x@ == name,
                Err(e) => r matches Err(x) && x == e,
            },
    {
        TableIdentifier::parse(identifier)
    }
}

impl std::str::FromStr for ColumnIdentifier {
    type Err = ParseIdentifierError;

    /// Reads the identifier as `parse` does.
    fn from_str(identifier: &str) -> (r: Result<Self, Self::Err>)
        ensures
            match parse_column(identifier@) {
                Ok(name) => r matches Ok(x) && x@ == name,
                Err(e) => r matches Err(x) && x == e,
            },
    {
        ColumnIdentifier::parse(identifier)
    }
}

} // verus!
