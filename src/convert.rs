use vstd::prelude::*;

verus! {

/// Resolution of a stored timestamp integer.
#[derive(Clone, Copy, Debug, PartialEq, Eq)]
pub enum TimeUnit {
    Second,
    Millisecond,
    Microsecond,
    Nanosecond,
}

/// One column of a row block: values of one logical type, `None` where absent.
///
/// Floating-point values are carried as the text that the platform's default
/// float formatting gave them, since this library holds no floats.
pub enum Column {
    Boolean(Vec<Option<bool>>),
    Int8(Vec<Option<i8>>),
    Int16(Vec<Option<i16>>),
    Int32(Vec<Option<i32>>),
    Int64(Vec<Option<i64>>),
    UInt8(Vec<Option<u8>>),
    UInt16(Vec<Option<u16>>),
    UInt32(Vec<Option<u32>>),
    UInt64(Vec<Option<u64>>),
    FloatText(Vec<Option<String>>),
    Timestamp(TimeUnit, Vec<Option<i64>>),
    Utf8(Vec<Option<String>>),
    LargeUtf8(Vec<Option<String>>),
    /// A column of a type with no SQL encoding: its type name and, per position,
    /// whether a value is present.
    Unsupported(String, Vec<bool>),
}

/// Why a conversion failed.
#[derive(Debug, Clone)]
pub enum ConvertError {
    UnsupportedType(String),
    TimestampOutOfRange(i64),
    InvalidBatchSize,
}

/// The mathematical form of a `ConvertError`.
pub enum Failure {
    UnsupportedType(Seq<char>),
    TimestampOutOfRange(int),
    InvalidBatchSize,
}

impl View for ConvertError {
    type V = Failure;

    open spec fn view(&self) -> Failure {
        match self {
            ConvertError::UnsupportedType(n) => Failure::UnsupportedType(n@),
            ConvertError::TimestampOutOfRange(t) => Failure::TimestampOutOfRange(*t as int),
            ConvertError::InvalidBatchSize => Failure::InvalidBatchSize,
        }
    }
}

pub open spec fn column_len(c: &Column) -> nat {
    match c {
        Column::Boolean(v) => v@.len(),
        Column::Int8(v) => v@.len(),
        Column::Int16(v) => v@.len(),
        Column::Int32(v) => v@.len(),
        Column::Int64(v) => v@.len(),
        Column::UInt8(v) => v@.len(),
        Column::UInt16(v) => v@.len(),
        Column::UInt32(v) => v@.len(),
        Column::UInt64(v) => v@.len(),
        Column::FloatText(v) => v@.len(),
        Column::Timestamp(_, v) => v@.len(),
        Column::Utf8(v) => v@.len(),
        Column::LargeUtf8(v) => v@.len(),
        Column::Unsupported(_, v) => v@.len(),
    }
}

/// Whether the value at `i` is absent.
pub open spec fn is_null_at(c: &Column, i: int) -> bool {
    match c {
        Column::Boolean(v) => v@[i] is None,
        Column::Int8(v) => v@[i] is None,
        Column::Int16(v) => v@[i] is None,
        Column::Int32(v) => v@[i] is None,
        Column::Int64(v) => v@[i] is None,
        Column::UInt8(v) => v@[i] is None,
        Column::UInt16(v) => v@[i] is None,
        Column::UInt32(v) => v@[i] is None,
        Column::UInt64(v) => v@[i] is None,
        Column::FloatText(v) => v@[i] is None,
        Column::Timestamp(_, v) => v@[i] is None,
        Column::Utf8(v) => v@[i] is None,
        Column::LargeUtf8(v) => v@[i] is None,
        Column::Unsupported(_, v) => !v@[i],
    }
}

pub open spec fn digit_char(d: int) -> char {
    ((d + 48) as u8) as char
}

/// Base-10 digits of `n`, without leading zeros.
pub open spec fn dec_digits(n: nat) -> Seq<char>
    decreases n,
{
    if n < 10 {
        seq![digit_char(n as int)]
    } else {
        dec_digits(n / 10) + seq![digit_char((n % 10) as int)]
    }
}

/// Canonical decimal text of an integer.
pub open spec fn int_text(v: int) -> Seq<char> {
    if v < 0 {
        seq!['-'] + dec_digits((-v) as nat)
    } else {
        dec_digits(v as nat)
    }
}

/// How one character stands inside a quoted string literal.
pub open spec fn escape_char(c: char) -> Seq<char> {
    if c == '\'' {
        seq!['\'', '\'']
    } else if c == '\\' {
        seq!['\\', '\\']
    } else {
        seq![c]
    }
}

pub open spec fn escaped(s: Seq<char>) -> Seq<char>
    decreases s.len(),
{
    if s.len() == 0 {
        seq![]
    } else {
        escape_char(s[0]) + escaped(s.skip(1))
    }
}

/// A string literal: the text in single quotes, with `'` doubled and `\` doubled.
pub open spec fn quoted(s: Seq<char>) -> Seq<char> {
    seq!['\''] + escaped(s) + seq!['\'']
}

/// Reads the body of a string literal back, or `None` where it is malformed.
pub open spec fn unescape(t: Seq<char>) -> Option<Seq<char>>
    decreases t.len(),
{
    if t.len() == 0 {
        Some(seq![])
    } else if t[0] == '\'' || t[0] == '\\' {
        if t.len() >= 2 && t[1] == t[0] {
            match unescape(t.skip(2)) {
                Some(r) => Some(seq![t[0]] + r),
                None => None,
            }
        } else {
            None
        }
    } else {
        match unescape(t.skip(1)) {
            Some(r) => Some(seq![t[0]] + r),
            None => None,
        }
    }
}

/// Parses a single-quoted string literal, or `None` where it is not one.
pub open spec fn unquote(t: Seq<char>) -> Option<Seq<char>> {
    if t.len() >= 2 && t[0] == '\'' && t[t.len() - 1] == '\'' {
        unescape(t.subrange(1, t.len() - 1))
    } else {
        None
    }
}

pub open spec fn unit_scale(u: TimeUnit) -> int {
    match u {
        TimeUnit::Second => 1,
        TimeUnit::Millisecond => 1_000,
        TimeUnit::Microsecond => 1_000_000,
        TimeUnit::Nanosecond => 1_000_000_000,
    }
}

/// `'YYYY-MM-DD HH:MM:SS'` for a count of whole seconds since the epoch in UTC,
/// or `None` where no calendar time has that count.
pub uninterp spec fn utc_datetime_text(secs: int) -> Option<Seq<char>>;

pub open spec fn null_text() -> Seq<char> {
    seq!['N', 'U', 'L', 'L']
}

pub open spec fn bool_text(b: bool) -> Seq<char> {
    if b {
        seq!['T', 'R', 'U', 'E']
    } else {
        seq!['F', 'A', 'L', 'S', 'E']
    }
}

pub open spec fn timestamp_literal(u: TimeUnit, ts: int) -> Result<Seq<char>, Failure> {
    match utc_datetime_text(ts / unit_scale(u)) {
        Some(t) => Ok(t),
        None => Err(Failure::TimestampOutOfRange(ts)),
    }
}

/// The SQL literal of the value at `i` of `c`.
pub open spec fn literal(c: &Column, i: int) -> Result<Seq<char>, Failure> {
    if is_null_at(c, i) {
        Ok(null_text())
    } else {
        match c {
            Column::Boolean(v) => Ok(bool_text(v@[i].unwrap())),
            Column::Int8(v) => Ok(int_text(v@[i].unwrap() as int)),
            Column::Int16(v) => Ok(int_text(v@[i].unwrap() as int)),
            Column::Int32(v) => Ok(int_text(v@[i].unwrap() as int)),
            Column::Int64(v) => Ok(int_text(v@[i].unwrap() as int)),
            Column::UInt8(v) => Ok(int_text(v@[i].unwrap() as int)),
            Column::UInt16(v) => Ok(int_text(v@[i].unwrap() as int)),
            Column::UInt32(v) => Ok(int_text(v@[i].unwrap() as int)),
            Column::UInt64(v) => Ok(int_text(v@[i].unwrap() as int)),
            Column::FloatText(v) => Ok(v@[i].unwrap()@),
            Column::Timestamp(u, v) => timestamp_literal(*u, v@[i].unwrap() as int),
            Column::Utf8(v) => Ok(quoted(v@[i].unwrap()@)),
            Column::LargeUtf8(v) => Ok(quoted(v@[i].unwrap()@)),
            Column::Unsupported(name, _) => Err(Failure::UnsupportedType(name@)),
        }
    }
}

/// Relies on `String::push`: appends one character.
#[verifier::external_body]
pub(crate) fn push_char(s: &mut String, c: char)
    ensures
        final(s)@ == old(s)@.push(c),
{
    s.push(c)
}

/// Relies on the `Display` of `format_sql_query::QuotedData`: the text in `'`,
/// with each `'` written `''` and each `\` written `\\`.
#[verifier::external_body]
fn quote_data(s: &str) -> (r: String)
    ensures
        r@ == quoted(s@),
{
    format!("{}", format_sql_query::QuotedData(s))
}

/// Relies on chrono's `DateTime::from_timestamp` (`None` for a count of seconds
/// out of its range) and on `DateTime::format` with `'%Y-%m-%d %H:%M:%S'`.
#[verifier::external_body]
fn utc_text(secs: i64) -> (r: Option<String>)
    ensures
        match r {
            Some(t) => utc_datetime_text(secs as int) == Some(t@),
            None => utc_datetime_text(secs as int) is None,
        },
{
    match chrono::DateTime::<chrono::Utc>::from_timestamp(secs, 0) {
        Some(dt) => Some(dt.format("'%Y-%m-%d %H:%M:%S'").to_string()),
        None => None,
    }
}

fn push_digits(out: &mut String, n: u64)
    ensures
        final(out)@ == old(out)@ + dec_digits(n as nat),
    decreases n,
{
    if n >= 10 {
        push_digits(out, n / 10);
    }
    let d: u64 = n % 10;
    let c = ((d as u8) + 48u8) as char;
    assert(c == digit_char(d as int));
    push_char(out, c);
    assert(out@ =~= old(out)@ + dec_digits(n as nat));
}

/// Decimal text of an unsigned integer.
pub fn unsigned_text(n: u64) -> (r: String)
    ensures
        r@ == int_text(n as int),
{
    let mut s = String::new();
    push_digits(&mut s, n);
    assert(s@ =~= int_text(n as int));
    s
}

/// Decimal text of a signed integer.
pub fn signed_text(v: i64) -> (r: String)
    ensures
        r@ == int_text(v as int),
{
    let mut s = String::new();
    if v < 0 {
        push_char(&mut s, '-');
        let m: u64 = (-(v as i128)) as u64;
        push_digits(&mut s, m);
    } else {
        push_digits(&mut s, v as u64);
    }
    assert(s@ =~= int_text(v as int));
    s
}

impl Column {
    /// The number of positions in the column.
    pub fn len(&self) -> (r: usize)
        ensures
            r == column_len(self),
    {
        match self {
            Column::Boolean(v) => v.len(),
            Column::Int8(v) => v.len(),
            Column::Int16(v) => v.len(),
            Column::Int32(v) => v.len(),
            Column::Int64(v) => v.len(),
            Column::UInt8(v) => v.len(),
            Column::UInt16(v) => v.len(),
            Column::UInt32(v) => v.len(),
            Column::UInt64(v) => v.len(),
            Column::FloatText(v) => v.len(),
            Column::Timestamp(_, v) => v.len(),
            Column::Utf8(v) => v.len(),
            Column::LargeUtf8(v) => v.len(),
            Column::Unsupported(_, v) => v.len(),
        }
    }
}

fn present<T>(v: &Option<T>) -> (r: bool)
    ensures
        r == (v is Some),
{
    match v {
        Some(_) => true,
        None => false,
    }
}

/// Whether the value at `index` is absent.
pub fn is_null(column: &Column, index: usize) -> (r: bool)
    requires
        index < column_len(column),
    ensures
        r == is_null_at(column, index as int),
{
    match column {
        Column::Boolean(v) => !present(&v[index]),
        Column::Int8(v) => !present(&v[index]),
        Column::Int16(v) => !present(&v[index]),
        Column::Int32(v) => !present(&v[index]),
        Column::Int64(v) => !present(&v[index]),
        Column::UInt8(v) => !present(&v[index]),
        Column::UInt16(v) => !present(&v[index]),
        Column::UInt32(v) => !present(&v[index]),
        Column::UInt64(v) => !present(&v[index]),
        Column::FloatText(v) => !present(&v[index]),
        Column::Timestamp(_, v) => !present(&v[index]),
        Column::Utf8(v) => !present(&v[index]),
        Column::LargeUtf8(v) => !present(&v[index]),
        Column::Unsupported(_, v) => !v[index],
    }
}

fn scale_of(u: TimeUnit) -> (r: i64)
    ensures
        r as int == unit_scale(u),
{
    match u {
        TimeUnit::Second => 1,
        TimeUnit::Millisecond => 1_000,
        TimeUnit::Microsecond => 1_000_000,
        TimeUnit::Nanosecond => 1_000_000_000,
    }
}

/// Literal of a stored timestamp: whole seconds in UTC, the sub-second part dropped.
fn timestamp_text(u: TimeUnit, ts: i64) -> (r: Result<String, ConvertError>)
    ensures
        match r {
            Ok(t) => timestamp_literal(u, ts as int) == Ok::<Seq<char>, Failure>(t@),
            Err(e) => timestamp_literal(u, ts as int) == Err::<Seq<char>, Failure>(e@),
        },
{
    let scale = scale_of(u);
    let secs = match ts.checked_div_euclid(scale) {
        Some(q) => q,
        None => {
            assert(false);
            0
        },
    };
    match utc_text(secs) {
        Some(t) => Ok(t),
        None => Err(ConvertError::TimestampOutOfRange(ts)),
    }
}

/// The SQL literal of the value at `index` of `column`: `NULL` where it is absent,
/// else `TRUE`/`FALSE`, decimal text, a quoted UTC timestamp or a quoted string;
/// a column of an unsupported type fails.
pub fn to_sql_value(column: &Column, index: usize) -> (r: Result<String, ConvertError>)
    requires
        index < column_len(column),
    ensures
        match r {
            Ok(t) => literal(column, index as int) == Ok::<Seq<char>, Failure>(t@),
            Err(e) => literal(column, index as int) == Err::<Seq<char>, Failure>(e@),
        },
{
    if is_null(column, index) {
        let t = String::from_str("NULL");
        proof {
            reveal_strlit("NULL");
        }
        assert(t@ =~= null_text());
        return Ok(t);
    }
    match column {
        Column::Boolean(v) => {
            let b = match &v[index] {
                Some(b) => *b,
                None => false,
            };
            if b {
                let t = String::from_str("TRUE");
                proof {
                    reveal_strlit("TRUE");
                }
                assert(t@ =~= bool_text(true));
                Ok(t)
            } else {
                let t = String::from_str("FALSE");
                proof {
                    reveal_strlit("FALSE");
                }
                assert(t@ =~= bool_text(false));
                Ok(t)
            }
        },
        Column::Int8(v) => Ok(signed_text(v[index].unwrap() as i64)),
        Column::Int16(v) => Ok(signed_text(v[index].unwrap() as i64)),
        Column::Int32(v) => Ok(signed_text(v[index].unwrap() as i64)),
        Column::Int64(v) => Ok(signed_text(v[index].unwrap())),
        Column::UInt8(v) => Ok(unsigned_text(v[index].unwrap() as u64)),
        Column::UInt16(v) => Ok(unsigned_text(v[index].unwrap() as u64)),
        Column::UInt32(v) => Ok(unsigned_text(v[index].unwrap() as u64)),
        Column::UInt64(v) => Ok(unsigned_text(v[index].unwrap())),
        Column::FloatText(v) => match &v[index] {
            Some(t) => Ok(t.clone()),
            None => Ok(String::new()),
        },
        Column::Timestamp(u, v) => timestamp_text(*u, v[index].unwrap()),
        Column::Utf8(v) => match &v[index] {
            Some(t) => Ok(quote_data(t.as_str())),
            None => Ok(String::new()),
        },
        Column::LargeUtf8(v) => match &v[index] {
            Some(t) => Ok(quote_data(t.as_str())),
            None => Ok(String::new()),
        },
        Column::Unsupported(name, _) => Err(ConvertError::UnsupportedType(name.clone())),
    }
}

/// An absent value is written `NULL`, whatever the column's type.
pub proof fn null_is_null(c: &Column, i: int)
    requires
        0 <= i < column_len(c),
        is_null_at(c, i),
    ensures
        literal(c, i) == Ok::<Seq<char>, Failure>(null_text()),
{
}

/// A present boolean is written `TRUE` or `FALSE`, nothing else.
pub proof fn boolean_is_keyword(v: Vec<Option<bool>>, i: int)
    requires
        0 <= i < v@.len(),
        v@[i] is Some,
    ensures
        literal(&Column::Boolean(v), i) == Ok::<Seq<char>, Failure>(seq!['T', 'R', 'U', 'E'])
            || literal(&Column::Boolean(v), i) == Ok::<Seq<char>, Failure>(
            seq!['F', 'A', 'L', 'S', 'E'],
        ),
{
}

proof fn lemma_unescape_escaped(s: Seq<char>)
    ensures
        unescape(escaped(s)) == Some(s),
    decreases s.len(),
{
    if s.len() > 0 {
        let e = escaped(s);
        lemma_unescape_escaped(s.skip(1));
        let k = escape_char(s[0]).len() as int;
        assert(e.skip(k) =~= escaped(s.skip(1)));
        assert(seq![s[0]] + s.skip(1) =~= s);
    }
}

/// Reading a string literal back gives the text it was made from.
pub proof fn quoted_round_trip(s: Seq<char>)
    ensures
        unquote(quoted(s)) == Some(s),
{
    let q = quoted(s);
    lemma_unescape_escaped(s);
    assert(q.subrange(1, q.len() - 1) =~= escaped(s));
}

/// The literal of a present text value is a string literal that reads back as that text.
pub proof fn text_literal_round_trip(c: &Column, i: int)
    requires
        0 <= i < column_len(c),
        !is_null_at(c, i),
        c is Utf8 || c is LargeUtf8,
    ensures
        match c {
            Column::Utf8(v) => literal(c, i) == Ok::<Seq<char>, Failure>(quoted(v@[i].unwrap()@))
                && unquote(quoted(v@[i].unwrap()@)) == Some(v@[i].unwrap()@),
            Column::LargeUtf8(v) => literal(c, i) == Ok::<Seq<char>, Failure>(quoted(v@[i].unwrap()@))
                && unquote(quoted(v@[i].unwrap()@)) == Some(v@[i].unwrap()@),
            _ => false,
        },
{
    match c {
        Column::Utf8(v) => quoted_round_trip(v@[i].unwrap()@),
        Column::LargeUtf8(v) => quoted_round_trip(v@[i].unwrap()@),
        _ => {},
    }
}

/// A present value of an unsupported column fails with that column's type name.
pub proof fn unsupported_fails(name: String, valid: Vec<bool>, i: int)
    requires
        0 <= i < valid@.len(),
        valid@[i],
    ensures
        literal(&Column::Unsupported(name, valid), i) == Err::<Seq<char>, Failure>(
            Failure::UnsupportedType(name@),
        ),
{
}

} // verus!
