//! Byte-string helpers shared by the tokenizer, the filter evaluator and the
//! table formatter.
use vstd::prelude::*;
use vstd::slice::slice_subrange;
use vstd::slice::slice_to_vec;
use vstd::string::StrSliceExecFns;
use vstd::string::StringSliceAdditionalSpecFns;

verus! {

/// The bytes of a text of ASCII characters.
pub open spec fn ascii(s: &str) -> Seq<u8> {
    Seq::new(s@.len(), |i: int| s@[i] as u8)
}

/// The bytes of the ASCII text `s`, owned.
pub fn ascii_bytes(s: &str) -> (out: Vec<u8>)
    requires
        s.is_ascii(),
    ensures
        out@ == ascii(s),
{
    proof {
        vstd::string::is_ascii_spec_bytes(s);
    }
    s.as_bytes_vec()
}

/// The least index `i >= from` with `s[i] == c`, or `s.len()` when `c` does
/// not occur at or after `from`.
pub open spec fn next_byte(s: Seq<u8>, c: u8, from: int) -> int
    decreases s.len() - from,
{
    if from < 0 || from >= s.len() {
        s.len() as int
    } else if s[from] == c {
        from
    } else {
        next_byte(s, c, from + 1)
    }
}

/// What `next_byte` returns: a position in range that holds `c`, with no
/// `c` between `from` and it.
pub proof fn lemma_next_byte(s: Seq<u8>, c: u8, from: int)
    requires
        0 <= from <= s.len(),
    ensures
        from <= next_byte(s, c, from) <= s.len(),
        next_byte(s, c, from) < s.len() ==> s[next_byte(s, c, from)] == c,
        forall|j: int| from <= j < next_byte(s, c, from) ==> s[j] != c,
    decreases s.len() - from,
{
    if from < s.len() && s[from] != c {
        lemma_next_byte(s, c, from + 1);
    }
}

/// A position that holds `c` and has no `c` before it back to `from` is
/// the one `next_byte` names.
pub proof fn lemma_next_byte_unique(s: Seq<u8>, c: u8, from: int, at: int)
    requires
        0 <= from <= at <= s.len(),
        at < s.len() ==> s[at] == c,
        forall|j: int| from <= j < at ==> s[j] != c,
    ensures
        next_byte(s, c, from) == at,
    decreases at - from,
{
    if from < at {
        lemma_next_byte_unique(s, c, from + 1, at);
    }
}

/// `true` when `c` occurs nowhere in `s`.
pub open spec fn free_of(s: Seq<u8>, c: u8) -> bool {
    forall|j: int| 0 <= j < s.len() ==> s[j] != c
}

/// Position of the first `c` at or after `from`; `s.len()` when there is none.
pub fn find_from(s: &[u8], c: u8, from: usize) -> (at: usize)
    requires
        from <= s@.len(),
    ensures
        at as int == next_byte(s@, c, from as int),
        from <= at <= s@.len(),
{
    let mut idx: usize = from;
    while idx < s.len() && s[idx] != c
        invariant
            from <= idx <= s@.len(),
            forall|j: int| from <= j < idx ==> s@[j] != c,
        decreases s@.len() - idx,
    {
        idx += 1;
    }
    proof {
        lemma_next_byte_unique(s@, c, from as int, idx as int);
    }
    idx
}

/// Position of the first occurrence of `c` in `s`, if any.
pub fn index_of(s: &[u8], c: u8) -> (found: Option<usize>)
    ensures
        match found {
            Some(i) => i < s@.len() && i as int == next_byte(s@, c, 0),
            None => next_byte(s@, c, 0) == s@.len(),
        },
{
    let at = find_from(s, c, 0);
    if at < s.len() {
        Some(at)
    } else {
        None
    }
}

/// An owned copy of `s[from..to]`.
pub fn copy_range(s: &[u8], from: usize, to: usize) -> (out: Vec<u8>)
    requires
        from <= to <= s@.len(),
    ensures
        out@ == s@.subrange(from as int, to as int),
{
    slice_to_vec(slice_subrange(s, from, to))
}

/// An owned copy of `s`.
pub fn copy_bytes(s: &[u8]) -> (out: Vec<u8>)
    ensures
        out@ == s@,
{
    slice_to_vec(s)
}

/// `true` when the two byte strings are the same.
pub fn bytes_eq(a: &[u8], b: &[u8]) -> (same: bool)
    ensures
        same == (a@ == b@),
{
    if a.len() != b.len() {
        return false;
    }
    let mut i: usize = 0;
    while i < a.len()
        invariant
            a@.len() == b@.len(),
            i <= a@.len(),
            forall|j: int| 0 <= j < i ==> a@[j] == b@[j],
        decreases a@.len() - i,
    {
        if a[i] != b[i] {
            return false;
        }
        i += 1;
    }
    assert(a@ =~= b@);
    true
}

pub const ZERO: u8 = 0x30;

pub const NINE: u8 = 0x39;

pub const PLUS: u8 = 0x2b;

pub open spec fn is_digit(b: u8) -> bool {
    ZERO <= b <= NINE
}

pub open spec fn all_digits(s: Seq<u8>) -> bool {
    forall|i: int| 0 <= i < s.len() ==> is_digit(#[trigger] s[i])
}

/// The number that a string of decimal digits denotes.
pub open spec fn digits_value(s: Seq<u8>) -> nat
    decreases s.len(),
{
    if s.len() == 0 {
        0
    } else {
        digits_value(s.drop_last()) * 10 + (s.last() - ZERO) as nat
    }
}

/// `s` without one leading `+`.
pub open spec fn unsigned_part(s: Seq<u8>) -> Seq<u8> {
    if s.len() > 0 && s[0] == PLUS {
        s.subrange(1, s.len() as int)
    } else {
        s
    }
}

/// Base-10 reading of `s` as an unsigned 64-bit number: one or more digits,
/// optionally after one `+`, whose value fits.  Anything else is `None`.
pub open spec fn decimal_u64(s: Seq<u8>) -> Option<u64> {
    let d = unsigned_part(s);
    if d.len() > 0 && all_digits(d) && digits_value(d) <= u64::MAX {
        Some(digits_value(d) as u64)
    } else {
        None
    }
}

/// A longer string of digits denotes no smaller a number than its prefix.
pub proof fn lemma_digits_value_prefix(s: Seq<u8>, k: int)
    requires
        0 <= k <= s.len(),
    ensures
        digits_value(s.subrange(0, k)) <= digits_value(s),
    decreases s.len(),
{
    if k == s.len() {
        assert(s.subrange(0, k) =~= s);
    } else {
        lemma_digits_value_prefix(s.drop_last(), k);
        assert(s.drop_last().subrange(0, k) =~= s.subrange(0, k));
    }
}

/// Value of the digits `s[from..]`, when they are digits and the value fits.
fn parse_digits(s: &[u8], from: usize) -> (r: Option<u64>)
    requires
        from <= s@.len(),
    ensures
        r == ({
            let d = s@.subrange(from as int, s@.len() as int);
            if d.len() > 0 && all_digits(d) && digits_value(d) <= u64::MAX {
                Some(digits_value(d) as u64)
            } else {
                None
            }
        }),
{
    let ghost d = s@.subrange(from as int, s@.len() as int);
    if from == s.len() {
        return None;
    }
    let mut acc: u64 = 0;
    let mut i: usize = from;
    while i < s.len()
        invariant
            from <= i <= s@.len(),
            d == s@.subrange(from as int, s@.len() as int),
            all_digits(d.subrange(0, i - from)),
            acc == digits_value(d.subrange(0, i - from)),
        decreases s@.len() - i,
    {
        let b = s[i];
        let ghost next = d.subrange(0, i - from + 1);
        proof {
            assert(next.drop_last() =~= d.subrange(0, i - from));
            assert(next.last() == b);
        }
        if b < ZERO || b > NINE {
            assert(!is_digit(d[i - from]));
            return None;
        }
        let digit: u64 = (b - ZERO) as u64;
        if acc > (u64::MAX - digit) / 10 {
            proof {
                assert(digits_value(next) > u64::MAX);
                lemma_digits_value_prefix(d, i - from + 1);
            }
            return None;
        }
        acc = acc * 10 + digit;
        i += 1;
        proof {
            assert forall|j: int| 0 <= j < next.len() implies is_digit(#[trigger] next[j]) by {
                if j < next.len() - 1 {
                    assert(d.subrange(0, i - from - 1)[j] == next[j]);
                }
            }
        }
    }
    assert(d.subrange(0, i - from) =~= d);
    Some(acc)
}

/// Reads `s` as a base-10 unsigned number.
pub fn parse_u64(s: &[u8]) -> (r: Option<u64>)
    ensures
        r == decimal_u64(s@),
{
    if s.len() > 0 && s[0] == PLUS {
        parse_digits(s, 1)
    } else {
        assert(s@.subrange(0, s@.len() as int) =~= s@);
        parse_digits(s, 0)
    }
}

/// The decimal digits of `n`, most significant first, without leading zeros.
pub open spec fn decimal_digits(n: nat) -> Seq<u8>
    decreases n,
{
    if n < 10 {
        seq![(ZERO + n) as u8]
    } else {
        decimal_digits(n / 10).push((ZERO + n % 10) as u8)
    }
}

/// Writes `n` in base 10.
pub fn render_u64(n: u64) -> (out: Vec<u8>)
    ensures
        out@ == decimal_digits(n as nat),
{
    let mut out: Vec<u8> = Vec::new();
    out.push(ZERO + (n % 10) as u8);
    let mut m: u64 = n / 10;
    proof {
        if n >= 10 {
            assert(decimal_digits(n as nat) =~= decimal_digits(m as nat) + out@);
        } else {
            assert(decimal_digits(n as nat) =~= out@);
        }
    }
    while m > 0
        invariant
            m > 0 ==> decimal_digits(n as nat) == decimal_digits(m as nat) + out@,
            m == 0 ==> decimal_digits(n as nat) == out@,
        decreases m,
    {
        let ghost before = out@;
        let digit: u8 = ZERO + (m % 10) as u8;
        out.insert(0, digit);
        proof {
            assert(out@ =~= seq![digit] + before);
            if m >= 10 {
                assert(decimal_digits(m as nat) == decimal_digits((m / 10) as nat).push(digit));
                assert(decimal_digits(n as nat) =~= decimal_digits((m / 10) as nat) + out@);
            } else {
                assert(decimal_digits(m as nat) =~= seq![digit]);
            }
        }
        m = m / 10;
    }
    out
}

/// What `decimal_digits` writes are digits that denote the number, as many
/// as it takes and at least one.
pub proof fn lemma_decimal_digits(n: nat)
    ensures
        decimal_digits(n).len() >= 1,
        all_digits(decimal_digits(n)),
        digits_value(decimal_digits(n)) == n,
    decreases n,
{
    let d = decimal_digits(n);
    if n < 10 {
        assert(d.drop_last() =~= Seq::<u8>::empty());
        assert(digits_value(d.drop_last()) == 0);
    } else {
        lemma_decimal_digits(n / 10);
        let front = decimal_digits(n / 10);
        assert(d.drop_last() =~= front);
        assert forall|i: int| 0 <= i < d.len() implies is_digit(#[trigger] d[i]) by {
            if i < front.len() {
                assert(d[i] == front[i]);
            }
        }
    }
}

/// A number that has been written is read back as itself.
pub proof fn lemma_decimal_round_trip(n: u64)
    ensures
        decimal_u64(decimal_digits(n as nat)) == Some(n),
{
    lemma_decimal_digits(n as nat);
    let d = decimal_digits(n as nat);
    assert(is_digit(d[0]));
    assert(d[0] != PLUS);
}

/// A lone `-`, bare or in double quotes: how the log marks a value it has not.
pub open spec fn is_dash(s: Seq<u8>) -> bool {
    s == seq![0x2du8] || s == seq![0x22u8, 0x2du8, 0x22u8]
}

/// A text value is missing when it is empty or a dash.
pub open spec fn text_value(raw: Seq<u8>) -> Option<Seq<u8>> {
    if raw.len() == 0 || is_dash(raw) {
        None
    } else {
        Some(raw)
    }
}

/// `true` when `raw` holds a text value: it is neither empty nor a dash.
pub fn has_text(raw: &[u8]) -> (present: bool)
    ensures
        present == text_value(raw@) is Some,
{
    let n = raw.len();
    if n == 0 {
        false
    } else if n == 1 && raw[0] == 0x2d {
        assert(raw@ =~= seq![0x2du8]);
        false
    } else if n == 3 && raw[0] == 0x22 && raw[1] == 0x2d && raw[2] == 0x22 {
        assert(raw@ =~= seq![0x22u8, 0x2du8, 0x22u8]);
        false
    } else {
        true
    }
}

/// Lexicographic order on the bytes from position `i` on: the first
/// position where the two differ decides, and a string that ends first is
/// the smaller.
pub open spec fn lex_less_from(a: Seq<u8>, b: Seq<u8>, i: int) -> bool
    decreases b.len() - i,
{
    if i < 0 || i >= b.len() {
        false
    } else if i >= a.len() {
        true
    } else if a[i] != b[i] {
        a[i] < b[i]
    } else {
        lex_less_from(a, b, i + 1)
    }
}

/// `a` comes before `b` in lexicographic order.
pub open spec fn lex_less(a: Seq<u8>, b: Seq<u8>) -> bool {
    lex_less_from(a, b, 0)
}

/// `true` when `a` comes before `b` in lexicographic order.
pub fn bytes_less(a: &[u8], b: &[u8]) -> (less: bool)
    ensures
        less == lex_less(a@, b@),
{
    let mut i: usize = 0;
    while i < a.len() && i < b.len()
        invariant
            i <= a@.len(),
            i <= b@.len(),
            lex_less(a@, b@) == lex_less_from(a@, b@, i as int),
        decreases a@.len() - i,
    {
        if a[i] != b[i] {
            return a[i] < b[i];
        }
        i += 1;
    }
    i < b.len()
}

/// `needle` stands in `text` at position `i`.
pub open spec fn occurs_at(text: Seq<u8>, needle: Seq<u8>, i: int) -> bool {
    0 <= i && i + needle.len() <= text.len() && text.subrange(i, i + needle.len()) == needle
}

/// `needle` stands somewhere in `text`.
pub open spec fn contains_bytes(text: Seq<u8>, needle: Seq<u8>) -> bool {
    exists|i: int| occurs_at(text, needle, i)
}

/// `true` when `needle` stands in `text` at position `at`.
fn matches_at(text: &[u8], needle: &[u8], at: usize) -> (r: bool)
    requires
        at + needle@.len() <= text@.len(),
    ensures
        r == occurs_at(text@, needle@, at as int),
{
    let n = text.len();
    let mut j: usize = 0;
    while j < needle.len()
        invariant
            j <= needle@.len(),
            n == text@.len(),
            at + needle@.len() <= n,
            forall|k: int| 0 <= k < j ==> text@[at + k] == needle@[k],
        decreases needle@.len() - j,
    {
        if text[at + j] != needle[j] {
            assert(text@.subrange(at as int, at + needle@.len())[j as int] != needle@[j as int]);
            return false;
        }
        j += 1;
    }
    assert(text@.subrange(at as int, at + needle@.len()) =~= needle@);
    true
}

/// `true` when `needle` stands somewhere in `text`.
pub fn bytes_contain(text: &[u8], needle: &[u8]) -> (found: bool)
    ensures
        found == contains_bytes(text@, needle@),
{
    if needle.len() > text.len() {
        assert forall|i: int| !occurs_at(text@, needle@, i) by {}
        return false;
    }
    let last = text.len() - needle.len();
    let mut i: usize = 0;
    while i < last
        invariant
            i <= last,
            last == text@.len() - needle@.len(),
            forall|k: int| 0 <= k < i ==> !occurs_at(text@, needle@, k),
        decreases last - i,
    {
        if matches_at(text, needle, i) {
            return true;
        }
        i += 1;
    }
    let found = matches_at(text, needle, last);
    assert(!found ==> forall|k: int| !occurs_at(text@, needle@, k));
    found
}

/// `a` does not come after `b`: it comes before it or is the same.
pub open spec fn lex_le(a: Seq<u8>, b: Seq<u8>) -> bool {
    !lex_less(b, a)
}

/// From a position up to which two strings agree, not both come before
/// the other.
proof fn lemma_lex_asymmetric_from(a: Seq<u8>, b: Seq<u8>, i: int)
    requires
        0 <= i,
    ensures
        !(lex_less_from(a, b, i) && lex_less_from(b, a, i)),
    decreases a.len() - i,
{
    if i < a.len() && i < b.len() && a[i] == b[i] {
        lemma_lex_asymmetric_from(a, b, i + 1);
    }
}

/// No string comes both before and after another.
pub proof fn lemma_lex_asymmetric(a: Seq<u8>, b: Seq<u8>)
    ensures
        !(lex_less(a, b) && lex_less(b, a)),
{
    lemma_lex_asymmetric_from(a, b, 0);
}

/// From a position up to which three strings agree, `lex_le` carries over.
proof fn lemma_lex_le_transitive_from(a: Seq<u8>, b: Seq<u8>, c: Seq<u8>, i: int)
    requires
        0 <= i,
        !lex_less_from(b, a, i),
        !lex_less_from(c, b, i),
    ensures
        !lex_less_from(c, a, i),
    decreases a.len() - i,
{
    if i < a.len() && i < b.len() && i < c.len() && a[i] == b[i] && b[i] == c[i] {
        lemma_lex_le_transitive_from(a, b, c, i + 1);
    }
}

/// `lex_le` is transitive.
pub proof fn lemma_lex_le_transitive(a: Seq<u8>, b: Seq<u8>, c: Seq<u8>)
    requires
        lex_le(a, b),
        lex_le(b, c),
    ensures
        lex_le(a, c),
{
    lemma_lex_le_transitive_from(a, b, c, 0);
}

/// A letter in lower case; any other byte as it is.
pub open spec fn lower(b: u8) -> u8 {
    if 0x41 <= b <= 0x5a {
        (b + 0x20) as u8
    } else {
        b
    }
}

/// A text with its letters in lower case.
pub open spec fn lowered(s: Seq<u8>) -> Seq<u8> {
    s.map_values(|b: u8| lower(b))
}

/// `s[from..to]` with its letters in lower case.
pub fn lower_range(s: &[u8], from: usize, to: usize) -> (out: Vec<u8>)
    requires
        from <= to <= s@.len(),
    ensures
        out@ == lowered(s@.subrange(from as int, to as int)),
{
    let ghost target = lowered(s@.subrange(from as int, to as int));
    let mut out: Vec<u8> = Vec::new();
    let mut i: usize = from;
    while i < to
        invariant
            from <= i <= to <= s@.len(),
            target == lowered(s@.subrange(from as int, to as int)),
            out@ == target.subrange(0, i - from),
        decreases to - i,
    {
        let b = s[i];
        let l = if 0x41 <= b && b <= 0x5a {
            b + 0x20
        } else {
            b
        };
        out.push(l);
        i += 1;
        assert(out@ =~= target.subrange(0, i - from));
    }
    assert(target.subrange(0, to - from) =~= target);
    out
}

/// `true` when `s[from..to]`, read without regard to case, is `keyword`.
pub fn word_is(s: &[u8], from: usize, to: usize, keyword: &str) -> (r: bool)
    requires
        from <= to <= s@.len(),
        keyword.is_ascii(),
    ensures
        r == (lowered(s@.subrange(from as int, to as int)) == ascii(keyword)),
{
    let word = lower_range(s, from, to);
    let wanted = ascii_bytes(keyword);
    bytes_eq(word.as_slice(), wanted.as_slice())
}

/// View of an optional byte string.
pub open spec fn opt_bytes(v: Option<Vec<u8>>) -> Option<Seq<u8>> {
    match v {
        Some(b) => Some(b@),
        None => None,
    }
}

/// The views of a vector of byte strings.
pub open spec fn views_of(v: Seq<Vec<u8>>) -> Seq<Seq<u8>> {
    v.map_values(|b: Vec<u8>| b@)
}

/// `n` times the byte `b`.
pub open spec fn repeat(b: u8, n: nat) -> Seq<u8> {
    Seq::new(n, |i: int| b)
}

/// Appends `n` times the byte `b`.
pub fn push_repeat(out: &mut Vec<u8>, b: u8, n: usize)
    ensures
        final(out)@ == old(out)@ + repeat(b, n as nat),
{
    let mut i: usize = 0;
    while i < n
        invariant
            i <= n,
            out@ == old(out)@ + repeat(b, i as nat),
        decreases n - i,
    {
        out.push(b);
        i += 1;
        assert(out@ =~= old(out)@ + repeat(b, i as nat));
    }
}

/// Appends the bytes of `text`.
pub fn push_bytes(out: &mut Vec<u8>, text: &[u8])
    ensures
        final(out)@ == old(out)@ + text@,
{
    let mut i: usize = 0;
    while i < text.len()
        invariant
            i <= text@.len(),
            out@ == old(out)@ + text@.subrange(0, i as int),
        decreases text@.len() - i,
    {
        out.push(text[i]);
        i += 1;
        assert(out@ =~= old(out)@ + text@.subrange(0, i as int));
    }
    assert(text@.subrange(0, i as int) =~= text@);
}

} // verus!
