//! The text of a query:
//!
//! ```text
//! query   := [filter] {"|" stage}       (without a filter the first bar may be left out)
//! stage   := group | show | sort | limit  (in any order, each at most once)
//! group   := "group" symbol {"," symbol}
//! show    := "show" element {"," element}
//! element := "*" | symbol | reducer "(" (symbol | "*") ")"
//! sort    := "sort" label ["asc" | "desc"]
//! limit   := "limit" digits
//! filter  := conj {("or" | "||") conj}
//! conj    := unit {("and" | "&&") unit}
//! unit    := "(" filter ")" | value op value
//! op      := "<" | ">" | "=" | "!=" | "~" | "!~"
//! value   := '"' text '"' | 'r"' pattern '"' | 'd"' date '"' | digits ["." digits] | word
//! ```
//!
//! A word is a run of letters, digits and `_`; `null`, `true` and `false`
//! are values of their own, any other word is a symbol.  Keywords and
//! symbols are read without regard to case, and symbols are kept in lower
//! case.  Blanks may stand between any two tokens.
use vstd::prelude::*;
use crate::dates::parse_local;
use crate::dates::parse_zoned;
use crate::dates::zoned_timestamp;
use crate::text::push_bytes;
use crate::parser::FilterSpec;
use crate::parser::QueryFilter;
use crate::parser::QueryFilterBinaryOp;
use crate::parser::QueryGrouping;
use crate::parser::QueryLimit;
use crate::parser::QueryReducer;
use crate::parser::QueryShow;
use crate::parser::QueryShowElement;
use crate::parser::QuerySort;
use crate::parser::QuerySortElement;
use crate::parser::QuerySortOrdering;
use crate::parser::QuerySpec;
use crate::parser::QueryValue;
use crate::parser::RipLogQuery;
use crate::parser::ShowSpec;
use crate::parser::SortSpec;
use crate::parser::ValueSpec;
use crate::pattern::pattern_compiles;
use crate::pattern::QueryRegex;
use crate::text::all_digits;
use crate::text::ascii;
use crate::text::ascii_bytes;
use crate::text::copy_range;
use crate::text::digits_value;
use crate::text::find_from;
use crate::text::is_digit;
use crate::text::lower_range;
use crate::text::lowered;
use crate::text::word_is;
use crate::text::next_byte;
use crate::text::parse_u64;

verus! {

/// Why the text of a query is not a query.
#[derive(Clone, Copy, Debug, PartialEq, Eq, Structural)]
pub enum QueryParseError {
    /// The text does not follow the grammar.
    Syntax,
    /// A regular expression does not compile.
    BadRegex,
    /// A date literal does not name a date.
    BadDate,
    /// A number is too large.
    BadNumber,
}

/// Layout of a date literal that names its zone.
pub const ZONED_DATE_FORMAT: &'static str = "%m-%d-%Y %H:%M:%S %z";

/// Layout of a date literal that is read in the local zone.
pub const LOCAL_DATE_FORMAT: &'static str = "%m-%d-%Y %H:%M:%S";

/// A date literal longer than this names its zone.
pub const LOCAL_DATE_LENGTH: usize = 20;

/// A date literal no longer than this is a day without a time.
pub const DAY_LENGTH: usize = 10;

/// The kinds of bytes that the grammar tells apart.
#[derive(Clone, Copy, Debug, PartialEq, Eq, Structural)]
pub enum Class {
    /// Space, tab, carriage return, line feed.
    Blank,
    /// Letters, digits and `_`.
    Word,
    /// What a word holds, and `(`, `)`, `*`.
    Label,
    /// Digits.
    Digit,
}

pub open spec fn is_blank(b: u8) -> bool {
    b == 0x20 || b == 0x09 || b == 0x0d || b == 0x0a
}

pub open spec fn is_word(b: u8) -> bool {
    is_digit(b) || (0x61 <= b <= 0x7a) || (0x41 <= b <= 0x5a) || b == 0x5f
}

pub open spec fn is_label(b: u8) -> bool {
    is_word(b) || b == 0x28 || b == 0x29 || b == 0x2a
}

pub open spec fn in_class(c: Class, b: u8) -> bool {
    match c {
        Class::Blank => is_blank(b),
        Class::Word => is_word(b),
        Class::Label => is_label(b),
        Class::Digit => is_digit(b),
    }
}

/// The end of the run of bytes of class `c` that starts at `i`.
pub open spec fn span_end(s: Seq<u8>, c: Class, i: int) -> int
    decreases s.len() - i,
{
    if 0 <= i < s.len() && in_class(c, s[i]) {
        span_end(s, c, i + 1)
    } else {
        i
    }
}

/// What `span_end` returns: the bytes up to it are of the class, the byte
/// at it is not.
pub proof fn lemma_span_end(s: Seq<u8>, c: Class, i: int)
    requires
        0 <= i <= s.len(),
    ensures
        i <= span_end(s, c, i) <= s.len(),
        forall|k: int| i <= k < span_end(s, c, i) ==> in_class(c, #[trigger] s[k]),
        span_end(s, c, i) < s.len() ==> !in_class(c, s[span_end(s, c, i)]),
    decreases s.len() - i,
{
    if i < s.len() && in_class(c, s[i]) {
        lemma_span_end(s, c, i + 1);
    }
}

/// The first position at or after `i` that holds no blank.
pub open spec fn skip_blanks(s: Seq<u8>, i: int) -> int {
    span_end(s, Class::Blank, i)
}

/// `true` when `b` is of class `c`.
pub fn class_has(c: Class, b: u8) -> (r: bool)
    ensures
        r == in_class(c, b),
{
    let digit = 0x30 <= b && b <= 0x39;
    let word = digit || (0x61 <= b && b <= 0x7a) || (0x41 <= b && b <= 0x5a) || b == 0x5f;
    match c {
        Class::Blank => b == 0x20 || b == 0x09 || b == 0x0d || b == 0x0a,
        Class::Word => word,
        Class::Label => word || b == 0x28 || b == 0x29 || b == 0x2a,
        Class::Digit => digit,
    }
}

/// The end of the run of bytes of class `c` that starts at `i`.
pub fn scan(s: &[u8], c: Class, i: usize) -> (end: usize)
    requires
        i <= s@.len(),
    ensures
        end == span_end(s@, c, i as int),
        i <= end <= s@.len(),
{
    let mut at: usize = i;
    while at < s.len() && class_has(c, s[at])
        invariant
            i <= at <= s@.len(),
            span_end(s@, c, i as int) == span_end(s@, c, at as int),
        decreases s@.len() - at,
    {
        at += 1;
    }
    at
}

/// The instant that a date literal names.
///
/// A literal of more than twenty bytes is read as
/// `MM-DD-YYYY HH:MM:SS ±zzzz`.  A shorter one names no zone and is read in
/// the zone of the machine, as `MM-DD-YYYY HH:MM:SS`, or as the start of
/// the day `MM-DD-YYYY` where it has no more than ten bytes; what it then
/// names depends on that zone.
pub fn create_date_from_string(date: &[u8]) -> (r: Option<i64>)
    ensures
        date@.len() > LOCAL_DATE_LENGTH ==> r == zoned_timestamp(date@, ZONED_DATE_FORMAT@),
{
    if date.len() <= DAY_LENGTH {
        proof {
            reveal_strlit(" 00:00:00");
        }
        let mut dt = copy_range(date, 0, date.len());
        let midnight = ascii_bytes(" 00:00:00");
        push_bytes(&mut dt, midnight.as_slice());
        parse_local(dt.as_slice(), LOCAL_DATE_FORMAT)
    } else if date.len() <= LOCAL_DATE_LENGTH {
        parse_local(date, LOCAL_DATE_FORMAT)
    } else {
        parse_zoned(date, ZONED_DATE_FORMAT)
    }
}

pub const DQUOTE: u8 = 0x22;

pub const LETTER_R: u8 = 0x72;

pub const LETTER_D: u8 = 0x64;

pub const DOT: u8 = 0x2e;

pub const BANG: u8 = 0x21;

pub const LESS: u8 = 0x3c;

pub const GREATER: u8 = 0x3e;

pub const EQUALS: u8 = 0x3d;

pub const TILDE: u8 = 0x7e;

pub const OPEN: u8 = 0x28;

pub const CLOSE: u8 = 0x29;

pub const PIPE: u8 = 0x7c;

pub const AMPERSAND: u8 = 0x26;

pub const COMMA: u8 = 0x2c;

pub const ASTERISK: u8 = 0x2a;

/// What the text of a date literal stands for in the grammar: the instant
/// it names where it names its zone, and zero where it is to be read in the
/// zone of the machine.
pub open spec fn literal_instant(text: Seq<u8>) -> Option<i64> {
    if text.len() > LOCAL_DATE_LENGTH {
        zoned_timestamp(text, ZONED_DATE_FORMAT@)
    } else {
        Some(0)
    }
}

/// The value that a word stands for, and where the value ends: a number,
/// `null`, `true`, `false`, or a symbol in lower case.
pub open spec fn word_value_at(s: Seq<u8>, i: int) -> Result<(ValueSpec, int), QueryParseError> {
    let e = span_end(s, Class::Word, i);
    let w = s.subrange(i, e);
    if e <= i {
        Err(QueryParseError::Syntax)
    } else if all_digits(w) {
        let f = span_end(s, Class::Digit, e + 1);
        if e < s.len() && s[e] == DOT && f > e + 1 {
            Ok((ValueSpec::Double(s.subrange(i, f)), f))
        } else if digits_value(w) <= i64::MAX {
            Ok((ValueSpec::Int(digits_value(w) as i64, w), e))
        } else {
            Err(QueryParseError::BadNumber)
        }
    } else if lowered(w) == ascii("null") {
        Ok((ValueSpec::Null, e))
    } else if lowered(w) == ascii("true") {
        Ok((ValueSpec::Boolean(true), e))
    } else if lowered(w) == ascii("false") {
        Ok((ValueSpec::Boolean(false), e))
    } else {
        Ok((ValueSpec::Symbol(lowered(w)), e))
    }
}

/// The value that starts at `i`, and where it ends.
pub open spec fn value_at(s: Seq<u8>, i: int) -> Result<(ValueSpec, int), QueryParseError> {
    if !(0 <= i < s.len()) {
        Err(QueryParseError::Syntax)
    } else if s[i] == DQUOTE {
        let e = next_byte(s, DQUOTE, i + 1);
        if e < s.len() {
            Ok((ValueSpec::Text(s.subrange(i + 1, e)), e + 1))
        } else {
            Err(QueryParseError::Syntax)
        }
    } else if (s[i] == LETTER_R || s[i] == LETTER_D) && i + 1 < s.len() && s[i + 1] == DQUOTE {
        let e = next_byte(s, DQUOTE, i + 2);
        let inner = s.subrange(i + 2, e);
        if e >= s.len() {
            Err(QueryParseError::Syntax)
        } else if s[i] == LETTER_R {
            if pattern_compiles(inner) {
                Ok((ValueSpec::Regex(inner), e + 1))
            } else {
                Err(QueryParseError::BadRegex)
            }
        } else {
            match literal_instant(inner) {
                Some(seconds) => Ok((ValueSpec::Date(seconds, inner), e + 1)),
                None => Err(QueryParseError::BadDate),
            }
        }
    } else {
        word_value_at(s, i)
    }
}

/// The comparison operator that starts at `i`, and where it ends.
pub open spec fn op_at(s: Seq<u8>, i: int) -> Option<(QueryFilterBinaryOp, int)> {
    if !(0 <= i < s.len()) {
        None
    } else if s[i] == BANG {
        if i + 1 < s.len() && s[i + 1] == EQUALS {
            Some((QueryFilterBinaryOp::Ne, i + 2))
        } else if i + 1 < s.len() && s[i + 1] == TILDE {
            Some((QueryFilterBinaryOp::Nr, i + 2))
        } else {
            None
        }
    } else if s[i] == LESS {
        Some((QueryFilterBinaryOp::Lt, i + 1))
    } else if s[i] == GREATER {
        Some((QueryFilterBinaryOp::Gt, i + 1))
    } else if s[i] == EQUALS {
        Some((QueryFilterBinaryOp::Eq, i + 1))
    } else if s[i] == TILDE {
        Some((QueryFilterBinaryOp::Re, i + 1))
    } else {
        None
    }
}

/// The comparison `value op value` that starts at `i`, and where it ends.
pub open spec fn comparison_at(s: Seq<u8>, i: int) -> Result<(FilterSpec, int), QueryParseError> {
    match value_at(s, i) {
        Err(e) => Err(e),
        Ok((a, j)) => match op_at(s, skip_blanks(s, j)) {
            None => Err(QueryParseError::Syntax),
            Some((op, k)) => match value_at(s, skip_blanks(s, k)) {
                Err(e) => Err(e),
                Ok((b, m)) => Ok((FilterSpec::BinaryOp(a, b, op), m)),
            },
        },
    }
}

/// Where the joiner that may start at `i` ends: the word `word`, read
/// without regard to case, or the byte `sign` twice.  `i` itself where
/// neither starts there.
pub open spec fn joiner_end(s: Seq<u8>, i: int, word: Seq<u8>, sign: u8) -> int {
    let e = span_end(s, Class::Word, i);
    if 0 <= i <= e <= s.len() && lowered(s.subrange(i, e)) == word {
        e
    } else if 0 <= i && i + 1 < s.len() && s[i] == sign && s[i + 1] == sign {
        i + 2
    } else {
        i
    }
}

/// The unit that starts at `i`: a filter in parentheses, or a comparison.
pub open spec fn unit_at(s: Seq<u8>, i: int) -> Result<(FilterSpec, int), QueryParseError>
    decreases s.len() - i, 0nat,
{
    if 0 <= i < s.len() && s[i] == OPEN {
        let j = skip_blanks(s, i + 1);
        if i < j <= s.len() {
            match or_at(s, j) {
                Err(e) => Err(e),
                Ok((f, k)) => {
                    let m = skip_blanks(s, k);
                    if 0 <= m < s.len() && s[m] == CLOSE {
                        Ok((f, m + 1))
                    } else {
                        Err(QueryParseError::Syntax)
                    }
                },
            }
        } else {
            Err(QueryParseError::Syntax)
        }
    } else {
        comparison_at(s, i)
    }
}

/// The units joined by `and` that start at `i`.  `a and b and c` is
/// `a and (b and c)`.
pub open spec fn and_at(s: Seq<u8>, i: int) -> Result<(FilterSpec, int), QueryParseError>
    decreases s.len() - i, 1nat,
{
    match unit_at(s, i) {
        Err(e) => Err(e),
        Ok((f, j)) => {
            let k = skip_blanks(s, j);
            let m = joiner_end(s, k, ascii("and"), AMPERSAND);
            let n = skip_blanks(s, m);
            if m > k && i < n <= s.len() {
                match and_at(s, n) {
                    Err(e) => Err(e),
                    Ok((g, p)) => Ok((FilterSpec::And(Box::new(f), Box::new(g)), p)),
                }
            } else {
                Ok((f, j))
            }
        },
    }
}

/// The filter that starts at `i`: conjunctions joined by `or`.
/// `a or b or c` is `a or (b or c)`.
pub open spec fn or_at(s: Seq<u8>, i: int) -> Result<(FilterSpec, int), QueryParseError>
    decreases s.len() - i, 2nat,
{
    match and_at(s, i) {
        Err(e) => Err(e),
        Ok((f, j)) => {
            let k = skip_blanks(s, j);
            let m = joiner_end(s, k, ascii("or"), PIPE);
            let n = skip_blanks(s, m);
            if m > k && i < n <= s.len() {
                match or_at(s, n) {
                    Err(e) => Err(e),
                    Ok((g, p)) => Ok((FilterSpec::Or(Box::new(f), Box::new(g)), p)),
                }
            } else {
                Ok((f, j))
            }
        },
    }
}

/// `true` when the value is a date literal that is read in the zone of
/// the machine.
pub open spec fn is_local_date(v: ValueSpec) -> bool {
    v matches ValueSpec::Date(_, text) && text.len() <= LOCAL_DATE_LENGTH
}

/// A value as the grammar sees it: a date literal that is read in the zone
/// of the machine stands for the instant zero.
pub open spec fn blank_value(v: ValueSpec) -> ValueSpec {
    match v {
        ValueSpec::Date(seconds, text) => if text.len() <= LOCAL_DATE_LENGTH {
            ValueSpec::Date(0, text)
        } else {
            v
        },
        _ => v,
    }
}

/// A filter as the grammar sees it.
pub open spec fn blank_filter(f: FilterSpec) -> FilterSpec
    decreases f,
{
    match f {
        FilterSpec::BinaryOp(a, b, op) => FilterSpec::BinaryOp(blank_value(a), blank_value(b), op),
        FilterSpec::And(l, r) => FilterSpec::And(
            Box::new(blank_filter(*l)),
            Box::new(blank_filter(*r)),
        ),
        FilterSpec::Or(l, r) => FilterSpec::Or(
            Box::new(blank_filter(*l)),
            Box::new(blank_filter(*r)),
        ),
    }
}

/// `true` when the filter holds a date literal that is read in the zone of
/// the machine.
pub open spec fn has_local_date(f: FilterSpec) -> bool
    decreases f,
{
    match f {
        FilterSpec::BinaryOp(a, b, _) => is_local_date(a) || is_local_date(b),
        FilterSpec::And(l, r) => has_local_date(*l) || has_local_date(*r),
        FilterSpec::Or(l, r) => has_local_date(*l) || has_local_date(*r),
    }
}

/// The outcome of reading a value: what the grammar gives, the instant of
/// a date that is read in the local zone apart.
pub open spec fn value_read(
    r: Result<(QueryValue, usize), QueryParseError>,
    s: Seq<u8>,
    i: int,
) -> bool {
    match value_at(s, i) {
        Ok((v, j)) => r matches Ok((value, end)) && end == j && blank_value(value@) == v && i < j
            <= s.len(),
        Err(e) => r matches Err(x) && x == e,
    }
}

/// The outcome of reading a filter: what the grammar gives, the instants
/// of dates that are read in the local zone apart.
pub open spec fn filter_read(
    r: Result<(QueryFilter, usize), QueryParseError>,
    expected: Result<(FilterSpec, int), QueryParseError>,
    s: Seq<u8>,
    i: int,
) -> bool {
    match expected {
        Ok((f, j)) => r matches Ok((filter, end)) && end == j && blank_filter(filter@) == f && i < j
            <= s.len(),
        Err(e) => r matches Err(x) && x == e,
    }
}

/// `true` when a value was read and is a date literal that is read in the
/// zone of the machine.
pub open spec fn reads_local_value(r: Result<(QueryValue, usize), QueryParseError>) -> bool {
    match r {
        Ok((value, _)) => is_local_date(value@),
        Err(_) => false,
    }
}

/// `true` when a filter was read and holds a date literal that is read in
/// the zone of the machine.
pub open spec fn reads_local_date(r: Result<(QueryFilter, usize), QueryParseError>) -> bool {
    match r {
        Ok((filter, _)) => has_local_date(filter@),
        Err(_) => false,
    }
}

/// A run of digits is a run of word bytes: the digits of a word reach its
/// end exactly when the word is all digits.
proof fn lemma_digit_run(s: Seq<u8>, i: int)
    requires
        0 <= i <= s.len(),
    ensures
        span_end(s, Class::Digit, i) <= span_end(s, Class::Word, i),
        all_digits(s.subrange(i, span_end(s, Class::Word, i))) <==> span_end(s, Class::Digit, i)
            == span_end(s, Class::Word, i),
{
    let d = span_end(s, Class::Digit, i);
    let e = span_end(s, Class::Word, i);
    lemma_span_end(s, Class::Digit, i);
    lemma_span_end(s, Class::Word, i);
    let w = s.subrange(i, e);
    if d < e {
        assert(!is_digit(w[d - i]));
    } else {
        if d > e {
            assert(in_class(Class::Digit, s[e]));
        }
        assert forall|k: int| 0 <= k < w.len() implies is_digit(#[trigger] w[k]) by {
            assert(in_class(Class::Digit, s[i + k]));
        }
    }
}

/// Reads the value that a word stands for.
fn parse_word_value(s: &[u8], i: usize) -> (r: Result<(QueryValue, usize), QueryParseError>)
    requires
        i <= s@.len(),
    ensures
        match word_value_at(s@, i as int) {
            Ok((v, j)) => r matches Ok((value, end)) && end == j && value@ == v && i < j <= s@.len()
                && !is_local_date(v),
            Err(e) => r matches Err(x) && x == e,
        },
{
    let n = s.len();
    let e = scan(s, Class::Word, i);
    if e <= i {
        return Err(QueryParseError::Syntax);
    }
    let d = scan(s, Class::Digit, i);
    proof {
        lemma_digit_run(s@, i as int);
        reveal_strlit("null");
        reveal_strlit("true");
        reveal_strlit("false");
    }
    if d == e {
        if e < n && s[e] == DOT {
            let f = scan(s, Class::Digit, e + 1);
            if f > e + 1 {
                return Ok((QueryValue::Double(copy_range(s, i, f)), f));
            }
        }
        let digits = copy_range(s, i, e);
        match parse_u64(digits.as_slice()) {
            Some(v) => {
                if v <= 0x7fff_ffff_ffff_ffff {
                    Ok((QueryValue::Int(v as i64, digits), e))
                } else {
                    Err(QueryParseError::BadNumber)
                }
            },
            None => Err(QueryParseError::BadNumber),
        }
    } else if word_is(s, i, e, "null") {
        Ok((QueryValue::Null, e))
    } else if word_is(s, i, e, "true") {
        Ok((QueryValue::Boolean(true), e))
    } else if word_is(s, i, e, "false") {
        Ok((QueryValue::Boolean(false), e))
    } else {
        Ok((QueryValue::Symbol(lower_range(s, i, e)), e))
    }
}

/// Reads the value that starts at `i`.  Where a date literal that is to be
/// read in the local zone names no date there, `failed` is set and the
/// value is the instant zero.
pub fn parse_value(s: &[u8], i: usize, failed: &mut bool) -> (r: Result<
    (QueryValue, usize),
    QueryParseError,
>)
    requires
        i <= s@.len(),
    ensures
        value_read(r, s@, i as int),
        *old(failed) ==> *final(failed),
        *final(failed) && !*old(failed) && r is Ok ==> reads_local_value(r),
{
    let n = s.len();
    if i >= n {
        return Err(QueryParseError::Syntax);
    }
    let first = s[i];
    if first == DQUOTE {
        let e = find_from(s, DQUOTE, i + 1);
        if e < n {
            Ok((QueryValue::Text(copy_range(s, i + 1, e)), e + 1))
        } else {
            Err(QueryParseError::Syntax)
        }
    } else if (first == LETTER_R || first == LETTER_D) && n - i > 1 && s[i + 1] == DQUOTE {
        let e = find_from(s, DQUOTE, i + 2);
        if e >= n {
            return Err(QueryParseError::Syntax);
        }
        let inner = copy_range(s, i + 2, e);
        if first == LETTER_R {
            match QueryRegex::new(inner.as_slice()) {
                Some(re) => Ok((QueryValue::Regex(re), e + 1)),
                None => Err(QueryParseError::BadRegex),
            }
        } else {
            match create_date_from_string(inner.as_slice()) {
                Some(seconds) => Ok((QueryValue::Date(seconds, inner), e + 1)),
                None => {
                    if inner.len() > LOCAL_DATE_LENGTH {
                        Err(QueryParseError::BadDate)
                    } else {
                        *failed = true;
                        Ok((QueryValue::Date(0, inner), e + 1))
                    }
                },
            }
        }
    } else {
        parse_word_value(s, i)
    }
}

/// The outcome of reading an operator: what the grammar gives.
pub open spec fn op_read(r: Option<(QueryFilterBinaryOp, usize)>, s: Seq<u8>, i: int) -> bool {
    match op_at(s, i) {
        Some((op, j)) => (match r {
            Some((found, end)) => found == op && end == j,
            None => false,
        }) && i < j <= s.len(),
        None => r is None,
    }
}

/// Reads the comparison operator that starts at `i`.
pub fn parse_filter_operator(s: &[u8], i: usize) -> (r: Option<(QueryFilterBinaryOp, usize)>)
    requires
        i <= s@.len(),
    ensures
        op_read(r, s@, i as int),
{
    let n = s.len();
    if i >= n {
        return None;
    }
    let b = s[i];
    if b == BANG {
        if n - i > 1 && s[i + 1] == EQUALS {
            Some((QueryFilterBinaryOp::Ne, i + 2))
        } else if n - i > 1 && s[i + 1] == TILDE {
            Some((QueryFilterBinaryOp::Nr, i + 2))
        } else {
            None
        }
    } else if b == LESS {
        Some((QueryFilterBinaryOp::Lt, i + 1))
    } else if b == GREATER {
        Some((QueryFilterBinaryOp::Gt, i + 1))
    } else if b == EQUALS {
        Some((QueryFilterBinaryOp::Eq, i + 1))
    } else if b == TILDE {
        Some((QueryFilterBinaryOp::Re, i + 1))
    } else {
        None
    }
}

/// Reads the comparison that starts at `i`.
pub fn parse_binary_op_filter(s: &[u8], i: usize, failed: &mut bool) -> (r: Result<
    (QueryFilter, usize),
    QueryParseError,
>)
    requires
        i <= s@.len(),
    ensures
        filter_read(r, comparison_at(s@, i as int), s@, i as int),
        *old(failed) ==> *final(failed),
        *final(failed) && !*old(failed) && r is Ok ==> reads_local_date(r),
{
    let (a, j) = match parse_value(s, i, failed) {
        Ok(x) => x,
        Err(e) => {
            return Err(e);
        },
    };
    let k = scan(s, Class::Blank, j);
    let (op, m) = match parse_filter_operator(s, k) {
        Some(x) => x,
        None => {
            return Err(QueryParseError::Syntax);
        },
    };
    let n = scan(s, Class::Blank, m);
    let (b, p) = match parse_value(s, n, failed) {
        Ok(x) => x,
        Err(e) => {
            return Err(e);
        },
    };
    let filter = QueryFilter::BinaryOpFilter(a, b, op);
    assert(filter@ == FilterSpec::BinaryOp(a@, b@, op));
    Ok((filter, p))
}

/// Where the joiner that may start at `i` ends; `i` where none starts
/// there.
fn parse_joiner(s: &[u8], i: usize, word: &str, sign: u8) -> (end: usize)
    requires
        i <= s@.len(),
        word.is_ascii(),
    ensures
        end == joiner_end(s@, i as int, ascii(word), sign),
        i <= end <= s@.len(),
{
    let n = s.len();
    let e = scan(s, Class::Word, i);
    if word_is(s, i, e, word) {
        e
    } else if n - i > 1 && s[i] == sign && s[i + 1] == sign {
        i + 2
    } else {
        i
    }
}

/// Reads the unit that starts at `i`.
pub fn parse_unit_filter(s: &[u8], i: usize, failed: &mut bool) -> (r: Result<
    (QueryFilter, usize),
    QueryParseError,
>)
    requires
        i <= s@.len(),
    ensures
        filter_read(r, unit_at(s@, i as int), s@, i as int),
        *old(failed) ==> *final(failed),
        *final(failed) && !*old(failed) && r is Ok ==> reads_local_date(r),
    decreases s@.len() - i, 0nat,
{
    let n = s.len();
    if i < n && s[i] == OPEN {
        let j = scan(s, Class::Blank, i + 1);
        let (f, k) = match parse_or_filter(s, j, failed) {
            Ok(x) => x,
            Err(e) => {
                return Err(e);
            },
        };
        let m = scan(s, Class::Blank, k);
        if m < n && s[m] == CLOSE {
            Ok((f, m + 1))
        } else {
            Err(QueryParseError::Syntax)
        }
    } else {
        parse_binary_op_filter(s, i, failed)
    }
}

/// Reads the units joined by `and` that start at `i`.
pub fn parse_and_filter(s: &[u8], i: usize, failed: &mut bool) -> (r: Result<
    (QueryFilter, usize),
    QueryParseError,
>)
    requires
        i <= s@.len(),
    ensures
        filter_read(r, and_at(s@, i as int), s@, i as int),
        *old(failed) ==> *final(failed),
        *final(failed) && !*old(failed) && r is Ok ==> reads_local_date(r),
    decreases s@.len() - i, 1nat,
{
    proof {
        reveal_strlit("and");
    }
    let (f, j) = match parse_unit_filter(s, i, failed) {
        Ok(x) => x,
        Err(e) => {
            return Err(e);
        },
    };
    let k = scan(s, Class::Blank, j);
    let m = parse_joiner(s, k, "and", AMPERSAND);
    let n = scan(s, Class::Blank, m);
    if m > k && n > i {
        match parse_and_filter(s, n, failed) {
            Ok((g, p)) => Ok((QueryFilter::AndFilter(Box::new(f), Box::new(g)), p)),
            Err(e) => Err(e),
        }
    } else {
        Ok((f, j))
    }
}

/// Reads the filter that starts at `i`.
pub fn parse_or_filter(s: &[u8], i: usize, failed: &mut bool) -> (r: Result<
    (QueryFilter, usize),
    QueryParseError,
>)
    requires
        i <= s@.len(),
    ensures
        filter_read(r, or_at(s@, i as int), s@, i as int),
        *old(failed) ==> *final(failed),
        *final(failed) && !*old(failed) && r is Ok ==> reads_local_date(r),
    decreases s@.len() - i, 2nat,
{
    proof {
        reveal_strlit("or");
    }
    let (f, j) = match parse_and_filter(s, i, failed) {
        Ok(x) => x,
        Err(e) => {
            return Err(e);
        },
    };
    let k = scan(s, Class::Blank, j);
    let m = parse_joiner(s, k, "or", PIPE);
    let n = scan(s, Class::Blank, m);
    if m > k && n > i {
        match parse_or_filter(s, n, failed) {
            Ok((g, p)) => Ok((QueryFilter::OrFilter(Box::new(f), Box::new(g)), p)),
            Err(e) => Err(e),
        }
    } else {
        Ok((f, j))
    }
}

/// Where the keyword `word`, read without regard to case, ends, if it
/// stands at `i` as a whole word.
pub open spec fn keyword_end(s: Seq<u8>, i: int, word: Seq<u8>) -> Option<int> {
    let e = span_end(s, Class::Word, i);
    if 0 <= i < e <= s.len() && lowered(s.subrange(i, e)) == word {
        Some(e)
    } else {
        None
    }
}

/// The symbol that starts at `i`, in lower case, and where it ends.
pub open spec fn symbol_at(s: Seq<u8>, i: int) -> Option<(Seq<u8>, int)> {
    let e = span_end(s, Class::Word, i);
    if 0 <= i < e <= s.len() {
        Some((lowered(s.subrange(i, e)), e))
    } else {
        None
    }
}

/// The symbols separated by commas that start at `i`, put after `acc`,
/// and where the last of them ends.
pub open spec fn symbols_from(s: Seq<u8>, i: int, acc: Seq<Seq<u8>>) -> Option<(Seq<Seq<u8>>, int)>
    decreases s.len() - i,
{
    match symbol_at(s, i) {
        None => None,
        Some((name, j)) => {
            let k = skip_blanks(s, j);
            let n = skip_blanks(s, k + 1);
            if 0 <= k < s.len() && s[k] == COMMA {
                if i < n <= s.len() {
                    symbols_from(s, n, acc.push(name))
                } else {
                    None
                }
            } else {
                Some((acc.push(name), j))
            }
        },
    }
}

/// The reducer that a word in lower case names.
pub open spec fn reducer_named(w: Seq<u8>) -> Option<QueryReducer> {
    if w == ascii("count") {
        Some(QueryReducer::Count)
    } else if w == ascii("sum") {
        Some(QueryReducer::Sum)
    } else if w == ascii("max") {
        Some(QueryReducer::Max)
    } else if w == ascii("avg") {
        Some(QueryReducer::Avg)
    } else {
        None
    }
}

/// What a reducer is applied to: `*`, or a symbol.
pub open spec fn argument_at(s: Seq<u8>, i: int) -> Option<(Seq<u8>, int)> {
    if 0 <= i < s.len() && s[i] == ASTERISK {
        Some((ascii("*"), i + 1))
    } else {
        symbol_at(s, i)
    }
}

/// The element of a projection that starts at `i`, and where it ends.
pub open spec fn element_at(s: Seq<u8>, i: int) -> Option<(ShowSpec, int)> {
    let e = span_end(s, Class::Word, i);
    let w = lowered(s.subrange(i, e));
    if !(0 <= i < s.len()) {
        None
    } else if s[i] == ASTERISK {
        Some((ShowSpec::All, i + 1))
    } else if !(i < e <= s.len()) {
        None
    } else if reducer_named(w) is Some && e < s.len() && s[e] == OPEN {
        match argument_at(s, skip_blanks(s, e + 1)) {
            None => None,
            Some((name, b)) => {
                let c = skip_blanks(s, b);
                if 0 <= c < s.len() && s[c] == CLOSE {
                    Some((ShowSpec::Reducer(reducer_named(w)->0, name), c + 1))
                } else {
                    None
                }
            },
        }
    } else {
        Some((ShowSpec::Symbol(w), e))
    }
}

/// The elements separated by commas that start at `i`, put after `acc`,
/// and where the last of them ends.
pub open spec fn elements_from(s: Seq<u8>, i: int, acc: Seq<ShowSpec>) -> Option<(Seq<ShowSpec>, int)>
    decreases s.len() - i,
{
    match element_at(s, i) {
        None => None,
        Some((element, j)) => {
            let k = skip_blanks(s, j);
            let n = skip_blanks(s, k + 1);
            if 0 <= k < s.len() && s[k] == COMMA {
                if i < n <= s.len() {
                    elements_from(s, n, acc.push(element))
                } else {
                    None
                }
            } else {
                Some((acc.push(element), j))
            }
        },
    }
}

/// The sort that starts at `i`: a label in lower case, and `asc` or `desc`
/// after it where one of them follows.
pub open spec fn sort_at(s: Seq<u8>, i: int) -> Option<(SortSpec, int)> {
    let e = span_end(s, Class::Label, i);
    let field = lowered(s.subrange(i, e));
    let k = skip_blanks(s, e);
    if !(0 <= i < e <= s.len()) {
        None
    } else {
        match keyword_end(s, k, ascii("asc")) {
            Some(m) => Some((SortSpec { field, order: QuerySortOrdering::ASC }, m)),
            None => match keyword_end(s, k, ascii("desc")) {
                Some(m) => Some((SortSpec { field, order: QuerySortOrdering::DESC }, m)),
                None => Some((SortSpec { field, order: QuerySortOrdering::ASC }, e)),
            },
        }
    }
}

/// The limit that starts at `i`.
pub open spec fn limit_at(s: Seq<u8>, i: int) -> Result<(usize, int), QueryParseError> {
    let e = span_end(s, Class::Digit, i);
    let digits = s.subrange(i, e);
    if !(0 <= i < e <= s.len()) {
        Err(QueryParseError::Syntax)
    } else if digits_value(digits) <= usize::MAX {
        Ok((digits_value(digits) as usize, e))
    } else {
        Err(QueryParseError::BadNumber)
    }
}

/// Where the body of the stage `word` starts, if the stage starts at `i`:
/// after blanks, a bar, which may be left out only where nothing comes
/// before the stage, the keyword, and blanks again.
pub open spec fn stage_start(s: Seq<u8>, i: int, first: bool, word: Seq<u8>) -> Option<int> {
    let a = skip_blanks(s, i);
    let barred = 0 <= a < s.len() && s[a] == PIPE;
    let b = if barred {
        skip_blanks(s, a + 1)
    } else {
        a
    };
    if !first && !barred {
        None
    } else {
        match keyword_end(s, b, word) {
            Some(e) => Some(skip_blanks(s, e)),
            None => None,
        }
    }
}

/// `true` when no filter starts at `i`: the text ends there, or a bar or
/// the keyword of a stage stands there.
pub open spec fn starts_stages(s: Seq<u8>, i: int) -> bool {
    ||| !(0 <= i < s.len())
    ||| s[i] == PIPE
    ||| keyword_end(s, i, ascii("group")) is Some
    ||| keyword_end(s, i, ascii("show")) is Some
    ||| keyword_end(s, i, ascii("sort")) is Some
    ||| keyword_end(s, i, ascii("limit")) is Some
}

/// The filter of a query, if it has one, and where it ends.
#[verifier::opaque]
pub open spec fn head_at(s: Seq<u8>) -> Result<(Option<FilterSpec>, int), QueryParseError> {
    let a = skip_blanks(s, 0);
    if starts_stages(s, a) {
        Ok((None, a))
    } else {
        match or_at(s, a) {
            Ok((f, j)) => Ok((Some(f), j)),
            Err(e) => Err(e),
        }
    }
}

/// One stage of a query.
pub enum StageSpec {
    Group(Seq<Seq<u8>>),
    Show(Seq<ShowSpec>),
    Sort(Seq<SortSpec>),
    Limit(usize),
}

/// The stage that starts at `at`, and where it ends; `None` where no
/// stage starts there.  `first` says that nothing comes before the stage,
/// so that the bar before it may be left out.
#[verifier::opaque]
pub open spec fn stage_at(s: Seq<u8>, at: int, first: bool) -> Result<
    Option<(StageSpec, int)>,
    QueryParseError,
> {
    match stage_start(s, at, first, ascii("group")) {
        Some(p) => match symbols_from(s, p, Seq::empty()) {
            Some((names, j)) => Ok(Some((StageSpec::Group(names), j))),
            None => Err(QueryParseError::Syntax),
        },
        None => match stage_start(s, at, first, ascii("show")) {
            Some(p) => match elements_from(s, p, Seq::empty()) {
                Some((elements, j)) => Ok(Some((StageSpec::Show(elements), j))),
                None => Err(QueryParseError::Syntax),
            },
            None => match stage_start(s, at, first, ascii("sort")) {
                Some(p) => match sort_at(s, p) {
                    Some((element, j)) => Ok(Some((StageSpec::Sort(seq![element]), j))),
                    None => Err(QueryParseError::Syntax),
                },
                None => match stage_start(s, at, first, ascii("limit")) {
                    Some(p) => match limit_at(s, p) {
                        Ok((limit, j)) => Ok(Some((StageSpec::Limit(limit), j))),
                        Err(e) => Err(e),
                    },
                    None => Ok(None),
                },
            },
        },
    }
}

/// The query with one more stage; `None` where it has a stage of that
/// kind already.
pub open spec fn with_stage(q: QuerySpec, stage: StageSpec) -> Option<QuerySpec> {
    match stage {
        StageSpec::Group(names) => if q.grouping is None {
            Some(QuerySpec { grouping: Some(names), ..q })
        } else {
            None
        },
        StageSpec::Show(elements) => if q.show is None {
            Some(QuerySpec { show: Some(elements), ..q })
        } else {
            None
        },
        StageSpec::Sort(sort) => if q.sort is None {
            Some(QuerySpec { sort: Some(sort), ..q })
        } else {
            None
        },
        StageSpec::Limit(limit) => if q.limit is None {
            Some(QuerySpec { limit: Some(limit), ..q })
        } else {
            None
        },
    }
}

/// The query `q` with the stages that start at `at`, which must reach to
/// the end of the text but for blanks.
pub open spec fn stages_at(s: Seq<u8>, at: int, first: bool, q: QuerySpec) -> Result<
    QuerySpec,
    QueryParseError,
>
    decreases s.len() - at,
{
    match stage_at(s, at, first) {
        Err(e) => Err(e),
        Ok(None) => if skip_blanks(s, at) == s.len() {
            Ok(q)
        } else {
            Err(QueryParseError::Syntax)
        },
        Ok(Some((stage, j))) => match with_stage(q, stage) {
            Some(more) => if at < j <= s.len() {
                stages_at(s, j, false, more)
            } else {
                Err(QueryParseError::Syntax)
            },
            None => Err(QueryParseError::Syntax),
        },
    }
}

/// A query that has a filter only, or nothing at all.
pub open spec fn bare_query(filter: Option<FilterSpec>) -> QuerySpec {
    QuerySpec { filter, grouping: None, show: None, sort: None, limit: None, computed_show: None }
}

/// The query that a text stands for: the filter, then the stages, each at
/// most once and in any order, and nothing but blanks after them.  A date
/// literal that is to be read in the zone of the machine stands for the
/// instant zero here.
pub open spec fn query_at(s: Seq<u8>) -> Result<QuerySpec, QueryParseError> {
    match head_at(s) {
        Err(e) => Err(e),
        Ok((filter, after_filter)) => stages_at(s, after_filter, filter is None, bare_query(filter)),
    }
}

/// A query as the grammar sees it.
pub open spec fn blank_query(q: QuerySpec) -> QuerySpec {
    QuerySpec {
        filter: match q.filter {
            Some(f) => Some(blank_filter(f)),
            None => None,
        },
        ..q
    }
}

/// `true` when the filter of the query holds a date literal that is read
/// in the zone of the machine.
pub open spec fn query_has_local_date(q: QuerySpec) -> bool {
    match q.filter {
        Some(f) => has_local_date(f),
        None => false,
    }
}

/// Blanking a filter keeps the texts of its date literals.
pub proof fn lemma_blank_keeps_local_dates(f: FilterSpec)
    ensures
        has_local_date(blank_filter(f)) == has_local_date(f),
    decreases f,
{
    match f {
        FilterSpec::BinaryOp(_, _, _) => {},
        FilterSpec::And(l, r) => {
            lemma_blank_keeps_local_dates(*l);
            lemma_blank_keeps_local_dates(*r);
        },
        FilterSpec::Or(l, r) => {
            lemma_blank_keeps_local_dates(*l);
            lemma_blank_keeps_local_dates(*r);
        },
    }
}

/// Where the keyword `word` ends, if it stands at `i`.
fn parse_keyword(s: &[u8], i: usize, word: &str) -> (r: Option<usize>)
    requires
        i <= s@.len(),
        word.is_ascii(),
    ensures
        match keyword_end(s@, i as int, ascii(word)) {
            Some(e) => (match r {
                Some(end) => end == e,
                None => false,
            }) && i < e <= s@.len(),
            None => r is None,
        },
{
    let e = scan(s, Class::Word, i);
    if e > i && word_is(s, i, e, word) {
        Some(e)
    } else {
        None
    }
}

/// Reads the symbol that starts at `i`.
fn parse_symbol(s: &[u8], i: usize) -> (r: Option<(Vec<u8>, usize)>)
    requires
        i <= s@.len(),
    ensures
        match symbol_at(s@, i as int) {
            Some((name, j)) => (match r {
                Some((found, end)) => found@ == name && end == j,
                None => false,
            }) && i < j <= s@.len(),
            None => r is None,
        },
{
    let e = scan(s, Class::Word, i);
    if e > i {
        Some((lower_range(s, i, e), e))
    } else {
        None
    }
}

/// The outcome of reading a list of symbols.
pub open spec fn grouping_read(r: Option<(QueryGrouping, usize)>, s: Seq<u8>, i: int) -> bool {
    match symbols_from(s, i, Seq::empty()) {
        Some((names, j)) => (match r {
            Some((found, end)) => found@ == names && end == j,
            None => false,
        }) && i < j <= s.len(),
        None => r is None,
    }
}

/// Reads the grouping columns that start at `i`.
pub fn parse_grouping(s: &[u8], i: usize) -> (r: Option<(QueryGrouping, usize)>)
    requires
        i <= s@.len(),
    ensures
        grouping_read(r, s@, i as int),
{
    let n = s.len();
    let mut names: Vec<Vec<u8>> = Vec::new();
    let mut at: usize = i;
    let ghost mut acc: Seq<Seq<u8>> = Seq::empty();
    loop
        invariant
            i <= at <= n,
            n == s@.len(),
            acc == names@.map_values(|g: Vec<u8>| g@),
            symbols_from(s@, i as int, Seq::empty()) == symbols_from(s@, at as int, acc),
        decreases n - at,
    {
        let (name, j) = match parse_symbol(s, at) {
            Some(x) => x,
            None => {
                return None;
            },
        };
        let ghost before = acc;
        proof {
            acc = acc.push(name@);
        }
        names.push(name);
        assert(names@.map_values(|g: Vec<u8>| g@) =~= acc);
        let k = scan(s, Class::Blank, j);
        if k < n && s[k] == COMMA {
            let next = scan(s, Class::Blank, k + 1);
            at = next;
        } else {
            let grouping = QueryGrouping { groupings: names };
            return Some((grouping, j));
        }
    }
}

/// A reducer by its name in the text `s[from..to]`.
fn parse_reducer(s: &[u8], from: usize, to: usize) -> (r: Option<QueryReducer>)
    requires
        from <= to <= s@.len(),
    ensures
        r == reducer_named(lowered(s@.subrange(from as int, to as int))),
{
    proof {
        reveal_strlit("count");
        reveal_strlit("sum");
        reveal_strlit("max");
        reveal_strlit("avg");
    }
    if word_is(s, from, to, "count") {
        Some(QueryReducer::Count)
    } else if word_is(s, from, to, "sum") {
        Some(QueryReducer::Sum)
    } else if word_is(s, from, to, "max") {
        Some(QueryReducer::Max)
    } else if word_is(s, from, to, "avg") {
        Some(QueryReducer::Avg)
    } else {
        None
    }
}

/// The outcome of reading one element of a projection.
pub open spec fn element_read(r: Option<(QueryShowElement, usize)>, s: Seq<u8>, i: int) -> bool {
    match element_at(s, i) {
        Some((element, j)) => (match r {
            Some((found, end)) => found@ == element && end == j,
            None => false,
        }) && i < j <= s.len(),
        None => r is None,
    }
}

/// Reads the element of a projection that starts at `i`.
pub fn parse_show_element(s: &[u8], i: usize) -> (r: Option<(QueryShowElement, usize)>)
    requires
        i <= s@.len(),
    ensures
        element_read(r, s@, i as int),
{
    let n = s.len();
    if i >= n {
        return None;
    }
    if s[i] == ASTERISK {
        return Some((QueryShowElement::All, i + 1));
    }
    let e = scan(s, Class::Word, i);
    if e <= i {
        return None;
    }
    let reducer = parse_reducer(s, i, e);
    match reducer {
        Some(kind) => {
            if e < n && s[e] == OPEN {
                let a = scan(s, Class::Blank, e + 1);
                let (name, b) = if a < n && s[a] == ASTERISK {
                    proof {
                        reveal_strlit("*");
                    }
                    (ascii_bytes("*"), a + 1)
                } else {
                    match parse_symbol(s, a) {
                        Some(x) => x,
                        None => {
                            return None;
                        },
                    }
                };
                let c = scan(s, Class::Blank, b);
                if c < n && s[c] == CLOSE {
                    return Some((QueryShowElement::Reducer(kind, name), c + 1));
                } else {
                    return None;
                }
            }
        },
        None => {},
    }
    Some((QueryShowElement::Symbol(lower_range(s, i, e)), e))
}

/// The outcome of reading a projection.
pub open spec fn show_read(r: Option<(QueryShow, usize)>, s: Seq<u8>, i: int) -> bool {
    match elements_from(s, i, Seq::empty()) {
        Some((elements, j)) => (match r {
            Some((found, end)) => found@ == elements && end == j,
            None => false,
        }) && i < j <= s.len(),
        None => r is None,
    }
}

/// Reads the projection that starts at `i`.
pub fn parse_show(s: &[u8], i: usize) -> (r: Option<(QueryShow, usize)>)
    requires
        i <= s@.len(),
    ensures
        show_read(r, s@, i as int),
{
    let n = s.len();
    let mut show = QueryShow { elements: Vec::new() };
    let mut at: usize = i;
    assert(show@ =~= Seq::<ShowSpec>::empty());
    loop
        invariant
            i <= at <= n,
            n == s@.len(),
            elements_from(s@, i as int, Seq::empty()) == elements_from(s@, at as int, show@),
        decreases n - at,
    {
        let (element, j) = match parse_show_element(s, at) {
            Some(x) => x,
            None => {
                return None;
            },
        };
        show.push(element);
        let k = scan(s, Class::Blank, j);
        if k < n && s[k] == COMMA {
            let next = scan(s, Class::Blank, k + 1);
            at = next;
        } else {
            return Some((show, j));
        }
    }
}

/// The keywords `asc` and `desc` differ.
proof fn lemma_asc_is_not_desc()
    ensures
        ascii("asc") != ascii("desc"),
{
    reveal_strlit("asc");
    reveal_strlit("desc");
    assert(ascii("asc").len() == 3);
    assert(ascii("desc").len() == 4);
}

/// The outcome of reading a sort.
pub open spec fn sort_read(r: Option<(QuerySort, usize)>, s: Seq<u8>, i: int) -> bool {
    match sort_at(s, i) {
        Some((element, j)) => (match r {
            Some((found, end)) => found@ == seq![element] && end == j,
            None => false,
        }) && i < j <= s.len(),
        None => r is None,
    }
}

/// Reads the sort that starts at `i`.
pub fn parse_sort(s: &[u8], i: usize) -> (r: Option<(QuerySort, usize)>)
    requires
        i <= s@.len(),
    ensures
        sort_read(r, s@, i as int),
{
    proof {
        reveal_strlit("asc");
        reveal_strlit("desc");
    }
    let e = scan(s, Class::Label, i);
    if e <= i {
        return None;
    }
    let field = lower_range(s, i, e);
    let k = scan(s, Class::Blank, e);
    let (order, end) = match parse_keyword(s, k, "asc") {
        Some(m) => (Some(copy_range(s, k, m)), m),
        None => match parse_keyword(s, k, "desc") {
            Some(m) => (Some(copy_range(s, k, m)), m),
            None => (None, e),
        },
    };
    proof {
        lemma_asc_is_not_desc();
    }
    let element = QuerySortElement::new(field, order);
    let mut sortings: Vec<QuerySortElement> = Vec::new();
    sortings.push(element);
    let sort = QuerySort { sortings };
    assert(sort@ =~= seq![element@]);
    Some((sort, end))
}

/// The outcome of reading a limit.
pub open spec fn limit_read(r: Result<(QueryLimit, usize), QueryParseError>, s: Seq<u8>, i: int) -> bool {
    match limit_at(s, i) {
        Ok((limit, j)) => (match r {
            Ok((found, end)) => found.limit == limit && end == j,
            Err(_) => false,
        }) && i < j <= s.len(),
        Err(e) => r matches Err(x) && x == e,
    }
}

/// Reads the limit that starts at `i`.
pub fn parse_limit(s: &[u8], i: usize) -> (r: Result<(QueryLimit, usize), QueryParseError>)
    requires
        i <= s@.len(),
    ensures
        limit_read(r, s@, i as int),
{
    let e = scan(s, Class::Digit, i);
    if e <= i {
        return Err(QueryParseError::Syntax);
    }
    proof {
        lemma_span_end(s@, Class::Digit, i as int);
        let digits = s@.subrange(i as int, e as int);
        assert forall|k: int| 0 <= k < digits.len() implies is_digit(#[trigger] digits[k]) by {
            assert(in_class(Class::Digit, s@[i + k]));
        }
    }
    let digits = copy_range(s, i, e);
    match parse_u64(digits.as_slice()) {
        Some(v) => {
            if v <= usize::MAX as u64 {
                Ok((QueryLimit { limit: v as usize }, e))
            } else {
                Err(QueryParseError::BadNumber)
            }
        },
        None => Err(QueryParseError::BadNumber),
    }
}

/// Where the body of the stage `word` starts, if the stage starts at `i`.
fn parse_stage_start(s: &[u8], i: usize, first: bool, word: &str) -> (r: Option<usize>)
    requires
        i <= s@.len(),
        word.is_ascii(),
    ensures
        match stage_start(s@, i as int, first, ascii(word)) {
            Some(p) => (match r {
                Some(end) => end == p,
                None => false,
            }) && i < p <= s@.len(),
            None => r is None,
        },
{
    let n = s.len();
    let a = scan(s, Class::Blank, i);
    let barred = a < n && s[a] == PIPE;
    let b = if barred {
        scan(s, Class::Blank, a + 1)
    } else {
        a
    };
    if !first && !barred {
        None
    } else {
        match parse_keyword(s, b, word) {
            Some(e) => Some(scan(s, Class::Blank, e)),
            None => None,
        }
    }
}

/// `true` when no filter starts at `i`.
fn at_stages(s: &[u8], i: usize) -> (r: bool)
    requires
        i <= s@.len(),
    ensures
        r == starts_stages(s@, i as int),
{
    proof {
        reveal_strlit("group");
        reveal_strlit("show");
        reveal_strlit("sort");
        reveal_strlit("limit");
    }
    i >= s.len() || s[i] == PIPE || parse_keyword(s, i, "group").is_some() || parse_keyword(
        s,
        i,
        "show",
    ).is_some() || parse_keyword(s, i, "sort").is_some() || parse_keyword(s, i, "limit").is_some()
}

/// One stage of a query.
#[derive(Debug)]
pub enum Stage {
    Group(QueryGrouping),
    Show(QueryShow),
    Sort(QuerySort),
    Limit(QueryLimit),
}

impl View for Stage {
    type V = StageSpec;

    open spec fn view(&self) -> StageSpec {
        match self {
            Stage::Group(g) => StageSpec::Group(g@),
            Stage::Show(s) => StageSpec::Show(s@),
            Stage::Sort(s) => StageSpec::Sort(s@),
            Stage::Limit(l) => StageSpec::Limit(l.limit),
        }
    }
}

/// The outcome of reading a stage.
pub open spec fn stage_read(
    r: Result<Option<(Stage, usize)>, QueryParseError>,
    s: Seq<u8>,
    at: int,
    first: bool,
) -> bool {
    match stage_at(s, at, first) {
        Ok(Some((stage, j))) => (match r {
            Ok(Some((found, end))) => found@ == stage && end == j,
            _ => false,
        }) && at < j <= s.len(),
        Ok(None) => r matches Ok(None),
        Err(e) => r matches Err(x) && x == e,
    }
}

/// Reads the stage that starts at `at`, if one starts there.
pub fn parse_stage(s: &[u8], at: usize, first: bool) -> (r: Result<
    Option<(Stage, usize)>,
    QueryParseError,
>)
    requires
        at <= s@.len(),
    ensures
        stage_read(r, s@, at as int, first),
{
    proof {
        reveal(stage_at);
        reveal_strlit("group");
        reveal_strlit("show");
        reveal_strlit("sort");
        reveal_strlit("limit");
    }
    match parse_stage_start(s, at, first, "group") {
        Some(p) => {
            return match parse_grouping(s, p) {
                Some((g, j)) => Ok(Some((Stage::Group(g), j))),
                None => Err(QueryParseError::Syntax),
            };
        },
        None => {},
    }
    match parse_stage_start(s, at, first, "show") {
        Some(p) => {
            return match parse_show(s, p) {
                Some((h, j)) => Ok(Some((Stage::Show(h), j))),
                None => Err(QueryParseError::Syntax),
            };
        },
        None => {},
    }
    match parse_stage_start(s, at, first, "sort") {
        Some(p) => {
            return match parse_sort(s, p) {
                Some((o, j)) => Ok(Some((Stage::Sort(o), j))),
                None => Err(QueryParseError::Syntax),
            };
        },
        None => {},
    }
    match parse_stage_start(s, at, first, "limit") {
        Some(p) => match parse_limit(s, p) {
            Ok((l, j)) => Ok(Some((Stage::Limit(l), j))),
            Err(e) => Err(e),
        },
        None => Ok(None),
    }
}

/// Puts one more stage into the query; `false` where the query has a
/// stage of that kind already, which leaves it as it is.
pub fn add_stage(query: &mut RipLogQuery, stage: Stage) -> (added: bool)
    ensures
        match with_stage(old(query)@, stage@) {
            Some(more) => added && final(query)@ == more,
            None => !added && final(query)@ == old(query)@,
        },
        match with_stage(blank_query(old(query)@), stage@) {
            Some(more) => blank_query(final(query)@) == more,
            None => !added,
        },
{
    match stage {
        Stage::Group(g) => {
            if query.grouping.is_none() {
                query.grouping = Some(g);
                true
            } else {
                false
            }
        },
        Stage::Show(s) => {
            if query.show.is_none() {
                query.show = Some(s);
                true
            } else {
                false
            }
        },
        Stage::Sort(s) => {
            if query.sort.is_none() {
                query.sort = Some(s);
                true
            } else {
                false
            }
        },
        Stage::Limit(l) => {
            if query.limit.is_none() {
                query.limit = Some(l);
                true
            } else {
                false
            }
        },
    }
}

/// The outcome of reading the filter of a query.
pub open spec fn head_read(
    r: Result<(Option<QueryFilter>, usize), QueryParseError>,
    s: Seq<u8>,
) -> bool {
    match head_at(s) {
        Ok((filter, j)) => (match r {
            Ok((found, end)) => end == j && (match found {
                Some(f) => filter == Some(blank_filter(f@)),
                None => filter is None,
            }),
            Err(_) => false,
        }) && 0 <= j <= s.len(),
        Err(e) => r matches Err(x) && x == e,
    }
}

/// `true` when a filter was read and holds a date literal that is read in
/// the zone of the machine.
pub open spec fn head_has_local_date(r: Result<(Option<QueryFilter>, usize), QueryParseError>) -> bool {
    match r {
        Ok((Some(f), _)) => has_local_date(f@),
        _ => false,
    }
}

/// Reads the filter of a query, if it has one.
fn parse_head(s: &[u8], failed: &mut bool) -> (r: Result<(Option<QueryFilter>, usize), QueryParseError>)
    requires
        !*old(failed),
    ensures
        head_read(r, s@),
        *final(failed) && r is Ok ==> head_has_local_date(r),
{
    proof {
        reveal(head_at);
    }
    let a = scan(s, Class::Blank, 0);
    if at_stages(s, a) {
        Ok((None, a))
    } else {
        match parse_or_filter(s, a, failed) {
            Ok((f, j)) => Ok((Some(f), j)),
            Err(e) => Err(e),
        }
    }
}

/// The outcome of reading a query: what the grammar gives, the instants
/// of dates that are read in the local zone apart.  Where such a date
/// names none, and only there, a text that the grammar accepts is refused
/// as `BadDate`.
pub open spec fn query_read(r: Result<RipLogQuery, QueryParseError>, s: Seq<u8>) -> bool {
    match query_at(s) {
        Ok(q) => match r {
            Ok(found) => blank_query(found@) == q,
            Err(e) => e == QueryParseError::BadDate && query_has_local_date(q),
        },
        Err(e) => r matches Err(x) && x == e,
    }
}

/// Reads a query.
pub fn parse_riplog_query(s: &[u8]) -> (r: Result<RipLogQuery, QueryParseError>)
    ensures
        query_read(r, s@),
{
    let mut failed = false;
    let (filter, after_filter) = match parse_head(s, &mut failed) {
        Ok(x) => x,
        Err(e) => {
            return Err(e);
        },
    };
    proof {
        match &filter {
            Some(f) => lemma_blank_keeps_local_dates(f@),
            None => {},
        }
    }
    let mut first = filter.is_none();
    let mut query = RipLogQuery {
        filter,
        grouping: None,
        show: None,
        sort: None,
        limit: None,
        computed_show: None,
    };
    let ghost head = blank_query(query@);
    let n = s.len();
    let mut at: usize = after_filter;
    loop
        invariant
            at <= n,
            n == s@.len(),
            blank_query(query@).filter == head.filter,
            failed ==> query_has_local_date(blank_query(query@)),
            query_at(s@) == stages_at(s@, at as int, first, blank_query(query@)),
        decreases n - at,
    {
        match parse_stage(s, at, first) {
            Err(e) => {
                return Err(e);
            },
            Ok(None) => {
                if scan(s, Class::Blank, at) != n {
                    return Err(QueryParseError::Syntax);
                }
                if failed {
                    return Err(QueryParseError::BadDate);
                }
                return Ok(query);
            },
            Ok(Some((stage, j))) => {
                if !add_stage(&mut query, stage) {
                    return Err(QueryParseError::Syntax);
                }
                at = j;
                first = false;
            },
        }
    }
}

/// Reads the text of a query.
pub fn parse_query(query: &[u8]) -> (r: Result<RipLogQuery, QueryParseError>)
    ensures
        query_read(r, query@),
{
    parse_riplog_query(query)
}

} // verus!
