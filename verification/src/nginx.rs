//! Access log lines in NGINX combined format: the tokenizer, and the
//! reusable record that holds the columns of one line together with the
//! values decoded from them so far.
use vstd::prelude::*;
use crate::dates::local_offset;
use crate::text::opt_bytes;
use crate::dates::parse_zoned;
use crate::dates::zoned_timestamp;
use crate::dates::DateValue;
use crate::dates::LOG_DATE_FORMAT;
use crate::table::distinct_names;
use crate::table::ColumnDefinition;
use crate::table::ColumnKind;
use crate::table::ColumnSpec;
use crate::table::Field;
use crate::table::TableDefinition;
use crate::text::ascii;
use crate::text::ascii_bytes;
use crate::text::copy_bytes;
use crate::text::decimal_u64;
use crate::text::has_text;
use crate::text::parse_u64;
use crate::text::text_value;
use crate::text::copy_range;
use crate::text::find_from;
use crate::text::free_of;
use crate::text::lemma_next_byte;
use crate::text::next_byte;

verus! {

pub const SPACE: u8 = 0x20;

pub const QUOTE: u8 = 0x22;

pub const DASH: u8 = 0x2d;

pub const QUESTION: u8 = 0x3f;

pub const LBRACKET: u8 = 0x5b;

pub const RBRACKET: u8 = 0x5d;

pub const NEWLINE: u8 = 0x0a;

/// The pieces of one well-formed line, in source order, delimiters left
/// out.  `remote` and `user` are the two tokens that no column keeps.
pub struct LineParts {
    pub ip: Seq<u8>,
    pub remote: Seq<u8>,
    pub user: Seq<u8>,
    pub date: Seq<u8>,
    pub request: Seq<u8>,
    pub status: Seq<u8>,
    pub bytes: Seq<u8>,
    pub referrer: Seq<u8>,
    pub user_agent: Seq<u8>,
    pub newline: bool,
}

/// The pieces of a request line `METHOD TARGET PROTOCOL`, in source order.
/// `rest` is what follows the target, its leading space included.
pub struct RequestParts {
    pub method: Seq<u8>,
    pub path: Seq<u8>,
    pub query: Seq<u8>,
    pub rest: Seq<u8>,
}

/// Length of `line` without its trailing newline, if it has one.
pub open spec fn content_end(line: Seq<u8>) -> int {
    if line.len() > 0 && line.last() == NEWLINE {
        line.len() - 1
    } else {
        line.len() as int
    }
}

/// Splits
/// `ip remote user [date] "request" status bytes "referrer" "user_agent"`,
/// optionally ended by a newline.  `None` when a delimiter is missing.
pub open spec fn split_line(line: Seq<u8>) -> Option<LineParts> {
    let n = line.len() as int;
    let a = next_byte(line, SPACE, 0);
    let b = next_byte(line, SPACE, a + 1);
    let c = next_byte(line, SPACE, b + 1);
    let d = next_byte(line, RBRACKET, c + 2);
    let e = next_byte(line, QUOTE, d + 3);
    let f = next_byte(line, SPACE, e + 2);
    let g = next_byte(line, SPACE, f + 1);
    let h = next_byte(line, QUOTE, g + 2);
    let end = content_end(line);
    if a < n && b < n && c < n && c + 1 < n && line[c + 1] == LBRACKET && d < n && d + 2 < n
        && line[d + 1] == SPACE && line[d + 2] == QUOTE && e < n && e + 1 < n && line[e + 1]
        == SPACE && f < n && g < n && g + 1 < n && line[g + 1] == QUOTE && h < n && h + 3 < end
        && line[h + 1] == SPACE && line[h + 2] == QUOTE && line[end - 1] == QUOTE {
        Some(
            LineParts {
                ip: line.subrange(0, a),
                remote: line.subrange(a + 1, b),
                user: line.subrange(b + 1, c),
                date: line.subrange(c + 2, d),
                request: line.subrange(d + 3, e),
                status: line.subrange(e + 2, f),
                bytes: line.subrange(f + 1, g),
                referrer: line.subrange(g + 2, h),
                user_agent: line.subrange(h + 3, end - 1),
                newline: end < n,
            },
        )
    } else {
        None
    }
}

/// Splits a request line.  Without a space the whole of it is the path.
/// Otherwise the method ends at the first space and the target at the next
/// one; the target's path ends at its first `?`, where its query begins.
pub open spec fn split_request(request: Seq<u8>) -> RequestParts {
    let n = request.len() as int;
    let sp = next_byte(request, SPACE, 0);
    if sp >= n {
        RequestParts { method: Seq::empty(), path: request, query: Seq::empty(), rest: Seq::empty() }
    } else {
        let stop = next_byte(request, SPACE, sp + 1);
        let mark = next_byte(request, QUESTION, sp + 1);
        let cut = if mark < stop { mark } else { stop };
        RequestParts {
            method: request.subrange(0, sp),
            path: request.subrange(sp + 1, cut),
            query: request.subrange(cut, stop),
            rest: request.subrange(stop, n),
        }
    }
}

/// A request line put together again from its pieces.
pub open spec fn join_request(p: RequestParts, had_space: bool) -> Seq<u8> {
    if had_space {
        p.method + seq![SPACE] + p.path + p.query + p.rest
    } else {
        p.path
    }
}

/// A line put together again from its pieces.
pub open spec fn join_line(p: LineParts) -> Seq<u8> {
    p.ip + seq![SPACE] + p.remote + seq![SPACE] + p.user + seq![SPACE, LBRACKET] + p.date
        + seq![RBRACKET, SPACE, QUOTE] + p.request + seq![QUOTE, SPACE] + p.status + seq![SPACE]
        + p.bytes + seq![SPACE, QUOTE] + p.referrer + seq![QUOTE, SPACE, QUOTE] + p.user_agent
        + seq![QUOTE] + (if p.newline {
        seq![NEWLINE]
    } else {
        Seq::empty()
    })
}

/// Two adjoining ranges of a sequence make one range.
proof fn lemma_ranges_join(s: Seq<u8>, i: int, j: int, k: int)
    requires
        0 <= i <= j <= k <= s.len(),
    ensures
        s.subrange(i, j) + s.subrange(j, k) == s.subrange(i, k),
{
    assert(s.subrange(i, j) + s.subrange(j, k) =~= s.subrange(i, k));
}

/// The ranges between ascending cut points of `s`, joined in order, are `s`.
proof fn lemma_cuts_join(s: Seq<u8>, cuts: Seq<int>, k: int)
    requires
        0 <= k < cuts.len(),
        cuts[0] == 0,
        forall|i: int| 0 <= i < cuts.len() - 1 ==> cuts[i] <= #[trigger] cuts[i + 1],
        cuts.last() <= s.len(),
    ensures
        joined_ranges(s, cuts, k) == s.subrange(0, cuts[k]),
    decreases k,
{
    assert forall|i: int| 0 <= i < cuts.len() implies 0 <= #[trigger] cuts[i] <= s.len() by {
        lemma_ascending(cuts, i);
    }
    if k == 0 {
        assert(s.subrange(0, 0) =~= Seq::<u8>::empty());
    } else {
        lemma_cuts_join(s, cuts, k - 1);
        assert(cuts[k - 1] <= cuts[k - 1 + 1]);
        lemma_ranges_join(s, 0, cuts[k - 1], cuts[k]);
    }
}

/// In an ascending sequence every entry lies between the first and the last.
proof fn lemma_ascending(cuts: Seq<int>, i: int)
    requires
        0 <= i < cuts.len(),
        forall|j: int| 0 <= j < cuts.len() - 1 ==> cuts[j] <= #[trigger] cuts[j + 1],
    ensures
        cuts[0] <= cuts[i] <= cuts.last(),
    decreases cuts.len() - i, i,
{
    if i > 0 {
        lemma_ascending_low(cuts, i);
    }
    if i < cuts.len() - 1 {
        assert(cuts[i] <= cuts[i + 1]);
        lemma_ascending(cuts, i + 1);
    }
}

proof fn lemma_ascending_low(cuts: Seq<int>, i: int)
    requires
        0 <= i < cuts.len(),
        forall|j: int| 0 <= j < cuts.len() - 1 ==> cuts[j] <= #[trigger] cuts[j + 1],
    ensures
        cuts[0] <= cuts[i],
    decreases i,
{
    if i > 0 {
        lemma_ascending_low(cuts, i - 1);
        assert(cuts[i - 1] <= cuts[i - 1 + 1]);
    }
}

/// The ranges `s[cuts[0]..cuts[1]]`, ..., `s[cuts[k-1]..cuts[k]]` joined.
spec fn joined_ranges(s: Seq<u8>, cuts: Seq<int>, k: int) -> Seq<u8>
    decreases k,
{
    if k <= 0 {
        Seq::empty()
    } else {
        joined_ranges(s, cuts, k - 1) + s.subrange(cuts[k - 1], cuts[k])
    }
}

/// Every byte of a well-formed line belongs to exactly one piece or
/// delimiter: joining the pieces gives the line back.
pub proof fn lemma_split_line_round_trip(line: Seq<u8>)
    requires
        split_line(line) is Some,
    ensures
        join_line(split_line(line)->0) == line,
{
    let n = line.len() as int;
    let a = next_byte(line, SPACE, 0);
    let b = next_byte(line, SPACE, a + 1);
    let c = next_byte(line, SPACE, b + 1);
    let d = next_byte(line, RBRACKET, c + 2);
    let e = next_byte(line, QUOTE, d + 3);
    let f = next_byte(line, SPACE, e + 2);
    let g = next_byte(line, SPACE, f + 1);
    let h = next_byte(line, QUOTE, g + 2);
    let end = content_end(line);
    let p = split_line(line)->0;
    lemma_split_positions(line);
    assert(seq![SPACE] =~= line.subrange(a, a + 1));
    assert(seq![SPACE] =~= line.subrange(b, b + 1));
    assert(seq![SPACE, LBRACKET] =~= line.subrange(c, c + 2));
    assert(seq![RBRACKET, SPACE, QUOTE] =~= line.subrange(d, d + 3));
    assert(seq![QUOTE, SPACE] =~= line.subrange(e, e + 2));
    assert(seq![SPACE] =~= line.subrange(f, f + 1));
    assert(seq![SPACE, QUOTE] =~= line.subrange(g, g + 2));
    assert(seq![QUOTE, SPACE, QUOTE] =~= line.subrange(h, h + 3));
    assert(seq![QUOTE] =~= line.subrange(end - 1, end));
    let tail = if p.newline {
        seq![NEWLINE]
    } else {
        Seq::<u8>::empty()
    };
    assert(tail =~= line.subrange(end, n));
    let cuts = seq![
        0,
        a,
        a + 1,
        b,
        b + 1,
        c,
        c + 2,
        d,
        d + 3,
        e,
        e + 2,
        f,
        f + 1,
        g,
        g + 2,
        h,
        h + 3,
        end - 1,
        end,
        n,
    ];
    assert(join_line(p) == joined_ranges(line, cuts, 19)) by {
        reveal_with_fuel(joined_ranges, 20);
        assert(Seq::<u8>::empty() + line.subrange(0, a) =~= line.subrange(0, a));
    }
    lemma_cuts_join(line, cuts, 19);
    assert(line.subrange(0, n) =~= line);
}

/// Where the delimiters of a well-formed line stand.
proof fn lemma_split_positions(line: Seq<u8>)
    requires
        split_line(line) is Some,
    ensures
        ({
            let a = next_byte(line, SPACE, 0);
            let b = next_byte(line, SPACE, a + 1);
            let c = next_byte(line, SPACE, b + 1);
            let d = next_byte(line, RBRACKET, c + 2);
            let e = next_byte(line, QUOTE, d + 3);
            let f = next_byte(line, SPACE, e + 2);
            let g = next_byte(line, SPACE, f + 1);
            let h = next_byte(line, QUOTE, g + 2);
            let end = content_end(line);
            &&& 0 <= a < b < c
            &&& c + 2 <= d
            &&& d + 3 <= e
            &&& e + 2 <= f < g
            &&& g + 2 <= h
            &&& h + 3 <= end - 1
            &&& end <= line.len()
            &&& line[a] == SPACE
            &&& line[b] == SPACE
            &&& line[c] == SPACE
            &&& line[c + 1] == LBRACKET
            &&& line[d] == RBRACKET
            &&& line[d + 1] == SPACE
            &&& line[d + 2] == QUOTE
            &&& line[e] == QUOTE
            &&& line[e + 1] == SPACE
            &&& line[f] == SPACE
            &&& line[g] == SPACE
            &&& line[g + 1] == QUOTE
            &&& line[h] == QUOTE
            &&& line[h + 1] == SPACE
            &&& line[h + 2] == QUOTE
            &&& line[end - 1] == QUOTE
            &&& end < line.len() ==> line[end] == NEWLINE
        }),
{
    let a = next_byte(line, SPACE, 0);
    let b = next_byte(line, SPACE, a + 1);
    let c = next_byte(line, SPACE, b + 1);
    let d = next_byte(line, RBRACKET, c + 2);
    let e = next_byte(line, QUOTE, d + 3);
    let f = next_byte(line, SPACE, e + 2);
    let g = next_byte(line, SPACE, f + 1);
    lemma_next_byte(line, SPACE, 0);
    lemma_next_byte(line, SPACE, a + 1);
    lemma_next_byte(line, SPACE, b + 1);
    lemma_next_byte(line, RBRACKET, c + 2);
    lemma_next_byte(line, QUOTE, d + 3);
    lemma_next_byte(line, SPACE, e + 2);
    lemma_next_byte(line, SPACE, f + 1);
    lemma_next_byte(line, QUOTE, g + 2);
}

/// No piece of a well-formed line that a delimiter ends holds that
/// delimiter: no byte is assigned to the wrong piece.
pub proof fn lemma_split_line_pieces(line: Seq<u8>)
    requires
        split_line(line) is Some,
    ensures
        free_of(split_line(line)->0.ip, SPACE),
        free_of(split_line(line)->0.remote, SPACE),
        free_of(split_line(line)->0.user, SPACE),
        free_of(split_line(line)->0.date, RBRACKET),
        free_of(split_line(line)->0.request, QUOTE),
        free_of(split_line(line)->0.status, SPACE),
        free_of(split_line(line)->0.bytes, SPACE),
        free_of(split_line(line)->0.referrer, QUOTE),
{
    let a = next_byte(line, SPACE, 0);
    let b = next_byte(line, SPACE, a + 1);
    let c = next_byte(line, SPACE, b + 1);
    let d = next_byte(line, RBRACKET, c + 2);
    let e = next_byte(line, QUOTE, d + 3);
    let f = next_byte(line, SPACE, e + 2);
    let g = next_byte(line, SPACE, f + 1);
    lemma_split_positions(line);
    lemma_next_byte(line, SPACE, 0);
    lemma_next_byte(line, SPACE, a + 1);
    lemma_next_byte(line, SPACE, b + 1);
    lemma_next_byte(line, RBRACKET, c + 2);
    lemma_next_byte(line, QUOTE, d + 3);
    lemma_next_byte(line, SPACE, e + 2);
    lemma_next_byte(line, SPACE, f + 1);
    lemma_next_byte(line, QUOTE, g + 2);
}

/// Joining the pieces of a request line gives it back, and where the line
/// has a space the pieces are free of the bytes that end them.
pub proof fn lemma_split_request_round_trip(request: Seq<u8>)
    ensures
        join_request(split_request(request), next_byte(request, SPACE, 0) < request.len())
            == request,
        free_of(split_request(request).method, SPACE),
        free_of(split_request(request).path, SPACE),
        free_of(split_request(request).query, SPACE),
        next_byte(request, SPACE, 0) < request.len() ==> free_of(
            split_request(request).path,
            QUESTION,
        ),
{
    let sp = next_byte(request, SPACE, 0);
    lemma_next_byte(request, SPACE, 0);
    if sp < request.len() {
        lemma_next_byte(request, SPACE, sp + 1);
        lemma_next_byte(request, QUESTION, sp + 1);
        assert(join_request(split_request(request), true) =~= request);
    }
}

/// Values decoded from the columns of the current line.  A slot is `None`
/// until its column is first asked for; what it then holds is the decoded
/// value, itself `None` where the column is missing or does not decode.
#[derive(Debug, Clone)]
pub struct ParsedNginxLogRecord {
    pub ip: Option<Vec<u8>>,
    pub date: Option<Option<DateValue>>,
    pub method: Option<Option<Vec<u8>>>,
    pub path: Option<Vec<u8>>,
    pub query: Option<Option<Vec<u8>>>,
    pub status: Option<Option<u64>>,
    pub bytes: Option<Option<u64>>,
    pub referrer: Option<Option<Vec<u8>>>,
    pub user_agent: Option<Option<Vec<u8>>>,
}

impl ParsedNginxLogRecord {
    /// `true` when no slot is filled.
    pub open spec fn is_clear(&self) -> bool {
        &&& self.ip is None
        &&& self.date is None
        &&& self.method is None
        &&& self.path is None
        &&& self.query is None
        &&& self.status is None
        &&& self.bytes is None
        &&& self.referrer is None
        &&& self.user_agent is None
    }

    pub fn empty() -> (r: ParsedNginxLogRecord)
        ensures
            r.is_clear(),
    {
        ParsedNginxLogRecord {
            ip: None,
            date: None,
            method: None,
            path: None,
            query: None,
            status: None,
            bytes: None,
            referrer: None,
            user_agent: None,
        }
    }
}

/// One tokenized line: the raw bytes of each column, and the values decoded
/// from them so far.
#[derive(Debug, Clone)]
pub struct BinaryNginxLogRecord {
    pub ip: Vec<u8>,
    pub date: Vec<u8>,
    pub method: Vec<u8>,
    pub path: Vec<u8>,
    pub query: Vec<u8>,
    pub status: Vec<u8>,
    pub bytes: Vec<u8>,
    pub referrer: Vec<u8>,
    pub user_agent: Vec<u8>,
    pub parsed_record: ParsedNginxLogRecord,
}

/// A record as a plain value: the raw bytes of each column, and the date
/// slot, which is the one decoded value that is not a function of them.
pub struct RecordSpec {
    pub ip: Seq<u8>,
    pub date: Seq<u8>,
    pub method: Seq<u8>,
    pub path: Seq<u8>,
    pub query: Seq<u8>,
    pub status: Seq<u8>,
    pub bytes: Seq<u8>,
    pub referrer: Seq<u8>,
    pub user_agent: Seq<u8>,
    pub decoded_date: Option<Option<DateValue>>,
}

impl RecordSpec {
    /// The instant that the date column names, if it names one.
    pub open spec fn date_seconds(self) -> Option<i64> {
        zoned_timestamp(self.date, LOG_DATE_FORMAT@)
    }

    /// `true` when the two records hold the same raw columns.
    pub open spec fn same_columns(self, other: RecordSpec) -> bool {
        self == (RecordSpec { decoded_date: self.decoded_date, ..other })
    }

    /// `true` when `later` is this record after some more decoding: the
    /// columns are the same, and a date once decoded stays.
    pub open spec fn extended_by(self, later: RecordSpec) -> bool {
        &&& self.same_columns(later)
        &&& self.decoded_date is Some ==> later.decoded_date == self.decoded_date
    }
}

impl View for BinaryNginxLogRecord {
    type V = RecordSpec;

    open spec fn view(&self) -> RecordSpec {
        RecordSpec {
            ip: self.ip@,
            date: self.date@,
            method: self.method@,
            path: self.path@,
            query: self.query@,
            status: self.status@,
            bytes: self.bytes@,
            referrer: self.referrer@,
            user_agent: self.user_agent@,
            decoded_date: self.parsed_record.date,
        }
    }
}

impl BinaryNginxLogRecord {
    /// `true` when the raw columns are those of the line split into `p`.
    pub open spec fn holds(&self, p: LineParts) -> bool {
        let r = split_request(p.request);
        &&& self.ip@ == p.ip
        &&& self.date@ == p.date
        &&& self.method@ == r.method
        &&& self.path@ == r.path
        &&& self.query@ == r.query
        &&& self.status@ == p.status
        &&& self.bytes@ == p.bytes
        &&& self.referrer@ == p.referrer
        &&& self.user_agent@ == p.user_agent
    }

    pub fn empty() -> (r: BinaryNginxLogRecord)
        ensures
            r.ip@.len() == 0,
            r.date@.len() == 0,
            r.method@.len() == 0,
            r.path@.len() == 0,
            r.query@.len() == 0,
            r.status@.len() == 0,
            r.bytes@.len() == 0,
            r.referrer@.len() == 0,
            r.user_agent@.len() == 0,
            r.parsed_record.is_clear(),
            r.wf(),
    {
        BinaryNginxLogRecord {
            ip: Vec::new(),
            date: Vec::new(),
            method: Vec::new(),
            path: Vec::new(),
            query: Vec::new(),
            status: Vec::new(),
            bytes: Vec::new(),
            referrer: Vec::new(),
            user_agent: Vec::new(),
            parsed_record: ParsedNginxLogRecord::empty(),
        }
    }

    /// `true` when the two records hold the same raw columns.
    pub open spec fn same_columns(&self, other: &BinaryNginxLogRecord) -> bool {
        &&& self.ip == other.ip
        &&& self.date == other.date
        &&& self.method == other.method
        &&& self.path == other.path
        &&& self.query == other.query
        &&& self.status == other.status
        &&& self.bytes == other.bytes
        &&& self.referrer == other.referrer
        &&& self.user_agent == other.user_agent
    }

    /// The instant that the date column names, if it names one.
    pub open spec fn date_seconds(&self) -> Option<i64> {
        self@.date_seconds()
    }

    /// Every filled slot holds what its column decodes to.
    pub open spec fn wf(&self) -> bool {
        let c = self.parsed_record;
        &&& c.ip matches Some(v) ==> v@ == self.ip@
        &&& c.path matches Some(v) ==> v@ == self.path@
        &&& c.method matches Some(v) ==> opt_bytes(v) == text_value(self.method@)
        &&& c.query matches Some(v) ==> opt_bytes(v) == text_value(self.query@)
        &&& c.referrer matches Some(v) ==> opt_bytes(v) == text_value(self.referrer@)
        &&& c.user_agent matches Some(v) ==> opt_bytes(v) == text_value(self.user_agent@)
        &&& c.status matches Some(v) ==> v == decimal_u64(self.status@)
        &&& c.bytes matches Some(v) ==> v == decimal_u64(self.bytes@)
        &&& c.date matches Some(v) ==> date_agrees(v, self.date_seconds())
    }

    /// The address column as text.  Decoded on first use, then kept.
    pub fn parsed_ip(&mut self) -> (r: Vec<u8>)
        requires
            old(self).wf(),
        ensures
            final(self).wf(),
            final(self).same_columns(old(self)),
            r@ == old(self).ip@,
            final(self).parsed_record.ip matches Some(v) && v@ == r@,
            old(self).parsed_record.ip is Some ==> *final(self) == *old(self),
            final(self).parsed_record == (ParsedNginxLogRecord {
                ip: final(self).parsed_record.ip,
                ..old(self).parsed_record
            }),
    {
        match &self.parsed_record.ip {
            Some(v) => copy_bytes(v.as_slice()),
            None => {
                let v = copy_bytes(self.ip.as_slice());
                let r = copy_bytes(v.as_slice());
                self.parsed_record.ip = Some(v);
                r
            },
        }
    }

    /// The path column as text.  Decoded on first use, then kept.
    pub fn parsed_path(&mut self) -> (r: Vec<u8>)
        requires
            old(self).wf(),
        ensures
            final(self).wf(),
            final(self).same_columns(old(self)),
            r@ == old(self).path@,
            final(self).parsed_record.path matches Some(v) && v@ == r@,
            old(self).parsed_record.path is Some ==> *final(self) == *old(self),
            final(self).parsed_record == (ParsedNginxLogRecord {
                path: final(self).parsed_record.path,
                ..old(self).parsed_record
            }),
    {
        match &self.parsed_record.path {
            Some(v) => copy_bytes(v.as_slice()),
            None => {
                let v = copy_bytes(self.path.as_slice());
                let r = copy_bytes(v.as_slice());
                self.parsed_record.path = Some(v);
                r
            },
        }
    }

    /// The method column as text; `None` when it is missing.  Decoded on
    /// first use, then kept.
    pub fn parsed_method(&mut self) -> (r: Option<Vec<u8>>)
        requires
            old(self).wf(),
        ensures
            final(self).wf(),
            final(self).same_columns(old(self)),
            opt_bytes(r) == text_value(old(self).method@),
            final(self).parsed_record.method matches Some(v) && opt_bytes(v) == opt_bytes(r),
            old(self).parsed_record.method is Some ==> *final(self) == *old(self),
            final(self).parsed_record == (ParsedNginxLogRecord {
                method: final(self).parsed_record.method,
                ..old(self).parsed_record
            }),
    {
        if self.parsed_record.method.is_none() {
            self.parsed_record.method = Some(decode_text(&self.method));
        }
        copy_slot(&self.parsed_record.method)
    }

    /// The query column as text, its leading `?` included; `None` when it
    /// is missing.  Decoded on first use, then kept.
    pub fn parsed_query(&mut self) -> (r: Option<Vec<u8>>)
        requires
            old(self).wf(),
        ensures
            final(self).wf(),
            final(self).same_columns(old(self)),
            opt_bytes(r) == text_value(old(self).query@),
            final(self).parsed_record.query matches Some(v) && opt_bytes(v) == opt_bytes(r),
            old(self).parsed_record.query is Some ==> *final(self) == *old(self),
            final(self).parsed_record == (ParsedNginxLogRecord {
                query: final(self).parsed_record.query,
                ..old(self).parsed_record
            }),
    {
        if self.parsed_record.query.is_none() {
            self.parsed_record.query = Some(decode_text(&self.query));
        }
        copy_slot(&self.parsed_record.query)
    }

    /// The referrer column as text; `None` when it is missing.  Decoded on
    /// first use, then kept.
    pub fn parsed_referrer(&mut self) -> (r: Option<Vec<u8>>)
        requires
            old(self).wf(),
        ensures
            final(self).wf(),
            final(self).same_columns(old(self)),
            opt_bytes(r) == text_value(old(self).referrer@),
            final(self).parsed_record.referrer matches Some(v) && opt_bytes(v) == opt_bytes(r),
            old(self).parsed_record.referrer is Some ==> *final(self) == *old(self),
            final(self).parsed_record == (ParsedNginxLogRecord {
                referrer: final(self).parsed_record.referrer,
                ..old(self).parsed_record
            }),
    {
        if self.parsed_record.referrer.is_none() {
            self.parsed_record.referrer = Some(decode_text(&self.referrer));
        }
        copy_slot(&self.parsed_record.referrer)
    }

    /// The user agent column as text; `None` when it is missing.  Decoded
    /// on first use, then kept.
    pub fn parsed_user_agent(&mut self) -> (r: Option<Vec<u8>>)
        requires
            old(self).wf(),
        ensures
            final(self).wf(),
            final(self).same_columns(old(self)),
            opt_bytes(r) == text_value(old(self).user_agent@),
            final(self).parsed_record.user_agent matches Some(v) && opt_bytes(v) == opt_bytes(r),
            old(self).parsed_record.user_agent is Some ==> *final(self) == *old(self),
            final(self).parsed_record == (ParsedNginxLogRecord {
                user_agent: final(self).parsed_record.user_agent,
                ..old(self).parsed_record
            }),
    {
        if self.parsed_record.user_agent.is_none() {
            self.parsed_record.user_agent = Some(decode_text(&self.user_agent));
        }
        copy_slot(&self.parsed_record.user_agent)
    }

    /// The status column as a number; `None` when it is empty or not a
    /// number.  Decoded on first use, then kept.
    pub fn parsed_status(&mut self) -> (r: Option<u64>)
        requires
            old(self).wf(),
        ensures
            final(self).wf(),
            final(self).same_columns(old(self)),
            r == decimal_u64(old(self).status@),
            final(self).parsed_record.status == Some(r),
            old(self).parsed_record.status is Some ==> *final(self) == *old(self),
            final(self).parsed_record == (ParsedNginxLogRecord {
                status: Some(r),
                ..old(self).parsed_record
            }),
    {
        match self.parsed_record.status {
            Some(v) => v,
            None => {
                let v = parse_u64(self.status.as_slice());
                self.parsed_record.status = Some(v);
                v
            },
        }
    }

    /// The bytes column as a number; `None` when it is empty or not a
    /// number.  Decoded on first use, then kept.
    pub fn parsed_bytes(&mut self) -> (r: Option<u64>)
        requires
            old(self).wf(),
        ensures
            final(self).wf(),
            final(self).same_columns(old(self)),
            r == decimal_u64(old(self).bytes@),
            final(self).parsed_record.bytes == Some(r),
            old(self).parsed_record.bytes is Some ==> *final(self) == *old(self),
            final(self).parsed_record == (ParsedNginxLogRecord {
                bytes: Some(r),
                ..old(self).parsed_record
            }),
    {
        match self.parsed_record.bytes {
            Some(v) => v,
            None => {
                let v = parse_u64(self.bytes.as_slice());
                self.parsed_record.bytes = Some(v);
                v
            },
        }
    }

    /// The date column as an instant, with the offset of the local zone at
    /// that instant; `None` when the column does not hold a date.  Decoded
    /// on first use, then kept.  Where the local zone cannot be had the
    /// offset is zero.
    pub fn parsed_date(&mut self) -> (r: Option<DateValue>)
        requires
            old(self).wf(),
        ensures
            final(self).wf(),
            final(self).same_columns(old(self)),
            date_agrees(r, old(self).date_seconds()),
            final(self).parsed_record.date == Some(r),
            old(self).parsed_record.date is Some ==> *final(self) == *old(self),
            final(self).parsed_record == (ParsedNginxLogRecord {
                date: Some(r),
                ..old(self).parsed_record
            }),
    {
        match self.parsed_record.date {
            Some(v) => v,
            None => {
                let v = match parse_zoned(self.date.as_slice(), LOG_DATE_FORMAT) {
                    Some(seconds) => Some(zoned_to_local(seconds, local_offset(seconds))),
                    None => None,
                };
                self.parsed_record.date = Some(v);
                v
            },
        }
    }
}

/// `true` when `v` is a date exactly when `seconds` is an instant, and then
/// names that instant.
pub open spec fn date_agrees(v: Option<DateValue>, seconds: Option<i64>) -> bool {
    match v {
        Some(d) => seconds == Some(d.seconds),
        None => seconds is None,
    }
}

/// The instant `seconds` under the offset that the local zone gave for it,
/// or under UTC where it gave none.
pub fn zoned_to_local(seconds: i64, offset: Option<i32>) -> (d: DateValue)
    ensures
        d.seconds == seconds,
        d.offset == (match offset {
            Some(o) => o,
            None => 0i32,
        }),
{
    match offset {
        Some(o) => DateValue { seconds, offset: o },
        None => DateValue { seconds, offset: 0 },
    }
}

/// `true` when `value` is a lone dash, bare or in double quotes.
pub fn is_empty(value: &[u8]) -> (r: bool)
    ensures
        r == crate::text::is_dash(value@),
{
    let n = value.len();
    if n == 1 && value[0] == DASH {
        assert(value@ =~= seq![0x2du8]);
        true
    } else if n == 3 && value[0] == QUOTE && value[1] == DASH && value[2] == QUOTE {
        assert(value@ =~= seq![0x22u8, 0x2du8, 0x22u8]);
        true
    } else {
        false
    }
}

/// The bytes, unless there are none.
pub fn empty_opt(bytes: &Vec<u8>) -> (r: Option<&Vec<u8>>)
    ensures
        match r {
            Some(b) => b@ == bytes@ && bytes@.len() > 0,
            None => bytes@.len() == 0,
        },
{
    if bytes.len() < 1 {
        None
    } else {
        Some(bytes)
    }
}

/// The text that `raw` holds, if it holds one.
fn decode_text(raw: &Vec<u8>) -> (r: Option<Vec<u8>>)
    ensures
        opt_bytes(r) == text_value(raw@),
{
    if has_text(raw.as_slice()) {
        Some(copy_bytes(raw.as_slice()))
    } else {
        None
    }
}

/// A copy of what a filled text slot holds.
fn copy_slot(slot: &Option<Option<Vec<u8>>>) -> (r: Option<Vec<u8>>)
    requires
        slot is Some,
    ensures
        opt_bytes(r) == opt_bytes(slot->0),
{
    match slot {
        Some(Some(v)) => Some(copy_bytes(v.as_slice())),
        _ => None,
    }
}

/// Tokenizes the first `len` bytes of `buf` into `record`.
///
/// Returns `true` and fills the nine columns, clearing every decoded slot,
/// when the line is well formed; returns `false` and leaves `record` as it
/// was when a delimiter is missing.
pub fn read_log_record_binary(buf: &Vec<u8>, len: usize, record: &mut BinaryNginxLogRecord) -> (ok:
    bool)
    requires
        len <= buf@.len(),
    ensures
        ok == split_line(buf@.subrange(0, len as int)) is Some,
        ok ==> final(record).holds(split_line(buf@.subrange(0, len as int))->0),
        ok ==> final(record).parsed_record.is_clear(),
        ok ==> final(record).wf(),
        !ok ==> *final(record) == *old(record),
{
    let line = vstd::slice::slice_subrange(buf.as_slice(), 0, len);
    let n = line.len();
    let a = find_from(line, SPACE, 0);
    if a >= n {
        return false;
    }
    let b = find_from(line, SPACE, a + 1);
    if b >= n {
        return false;
    }
    let c = find_from(line, SPACE, b + 1);
    if c >= n || n - c <= 1 || line[c + 1] != LBRACKET {
        return false;
    }
    let d = find_from(line, RBRACKET, c + 2);
    if d >= n || n - d <= 2 || line[d + 1] != SPACE || line[d + 2] != QUOTE {
        return false;
    }
    let e = find_from(line, QUOTE, d + 3);
    if e >= n || n - e <= 1 || line[e + 1] != SPACE {
        return false;
    }
    let f = find_from(line, SPACE, e + 2);
    if f >= n {
        return false;
    }
    let g = find_from(line, SPACE, f + 1);
    if g >= n || n - g <= 1 || line[g + 1] != QUOTE {
        return false;
    }
    let h = find_from(line, QUOTE, g + 2);
    if h >= n {
        return false;
    }
    let end = if line[n - 1] == NEWLINE {
        n - 1
    } else {
        n
    };
    if end - h <= 3 || line[h + 1] != SPACE || line[h + 2] != QUOTE || line[end - 1] != QUOTE {
        return false;
    }
    let request = vstd::slice::slice_subrange(line, d + 3, e);
    let m = request.len();
    let sp = find_from(request, SPACE, 0);
    if sp >= m {
        record.method = Vec::new();
        record.path = copy_range(request, 0, m);
        record.query = Vec::new();
        assert(request@.subrange(0, m as int) =~= request@);
    } else {
        let stop = find_from(request, SPACE, sp + 1);
        let mark = find_from(request, QUESTION, sp + 1);
        let cut = if mark < stop {
            mark
        } else {
            stop
        };
        record.method = copy_range(request, 0, sp);
        record.path = copy_range(request, sp + 1, cut);
        record.query = copy_range(request, cut, stop);
    }
    record.ip = copy_range(line, 0, a);
    record.date = copy_range(line, c + 2, d);
    record.status = copy_range(line, e + 2, f);
    record.bytes = copy_range(line, f + 1, g);
    record.referrer = copy_range(line, g + 2, h);
    record.user_agent = copy_range(line, h + 3, end - 1);
    record.parsed_record = ParsedNginxLogRecord::empty();
    true
}

/// One line with every column decoded.
#[derive(Debug, Clone)]
pub struct NginxLogRecord {
    pub ip: Vec<u8>,
    pub date: Option<DateValue>,
    pub method: Option<Vec<u8>>,
    pub path: Vec<u8>,
    pub query: Option<Vec<u8>>,
    pub status: Option<u64>,
    pub bytes: Option<u64>,
    pub referrer: Option<Vec<u8>>,
    pub user_agent: Option<Vec<u8>>,
}

impl NginxLogRecord {
    /// `true` when the values are those that the columns of the line split
    /// into `p` decode to.
    pub open spec fn decodes(&self, p: LineParts) -> bool {
        let r = split_request(p.request);
        &&& self.ip@ == p.ip
        &&& date_agrees(self.date, zoned_timestamp(p.date, LOG_DATE_FORMAT@))
        &&& opt_bytes(self.method) == text_value(r.method)
        &&& self.path@ == r.path
        &&& opt_bytes(self.query) == text_value(r.query)
        &&& self.status == decimal_u64(p.status)
        &&& self.bytes == decimal_u64(p.bytes)
        &&& opt_bytes(self.referrer) == text_value(p.referrer)
        &&& opt_bytes(self.user_agent) == text_value(p.user_agent)
    }
}

/// Tokenizes a line and decodes every column at once; `None` for a line
/// that is not well formed.
pub fn parse_log_record(line: &[u8]) -> (r: Option<NginxLogRecord>)
    ensures
        match r {
            Some(record) => split_line(line@) matches Some(p) && record.decodes(p),
            None => split_line(line@) is None,
        },
{
    let buf = copy_bytes(line);
    let mut record = BinaryNginxLogRecord::empty();
    assert(buf@.subrange(0, buf@.len() as int) =~= line@);
    if !read_log_record_binary(&buf, buf.len(), &mut record) {
        return None;
    }
    let ip = record.parsed_ip();
    let date = record.parsed_date();
    let method = record.parsed_method();
    let path = record.parsed_path();
    let query = record.parsed_query();
    let status = record.parsed_status();
    let bytes = record.parsed_bytes();
    let referrer = record.parsed_referrer();
    let user_agent = record.parsed_user_agent();
    Some(NginxLogRecord { ip, date, method, path, query, status, bytes, referrer, user_agent })
}

/// The columns of an access log, in the order in which `show *` lists
/// them, each with the width it is first shown at.
pub open spec fn nginx_columns() -> Seq<ColumnSpec> {
    seq![
        ColumnSpec { kind: ColumnKind::Text, name: ascii("ip"), size: 15, source: Field::Ip },
        ColumnSpec { kind: ColumnKind::Date, name: ascii("date"), size: 26, source: Field::Date },
        ColumnSpec { kind: ColumnKind::Text, name: ascii("method"), size: 5, source: Field::Method },
        ColumnSpec { kind: ColumnKind::Text, name: ascii("path"), size: 20, source: Field::Path },
        ColumnSpec { kind: ColumnKind::Text, name: ascii("query"), size: 50, source: Field::Query },
        ColumnSpec {
            kind: ColumnKind::Integer,
            name: ascii("status"),
            size: 3,
            source: Field::Status,
        },
        ColumnSpec { kind: ColumnKind::Integer, name: ascii("bytes"), size: 10, source: Field::Bytes },
        ColumnSpec {
            kind: ColumnKind::Text,
            name: ascii("referrer"),
            size: 50,
            source: Field::Referrer,
        },
        ColumnSpec {
            kind: ColumnKind::Text,
            name: ascii("user_agent"),
            size: 50,
            source: Field::UserAgent,
        },
    ]
}

/// The names of the access log's columns differ from one another.
pub proof fn lemma_nginx_columns_distinct()
    ensures
        distinct_names(nginx_columns()),
{
    reveal_strlit("ip");
    reveal_strlit("date");
    reveal_strlit("method");
    reveal_strlit("path");
    reveal_strlit("query");
    reveal_strlit("status");
    reveal_strlit("bytes");
    reveal_strlit("referrer");
    reveal_strlit("user_agent");
    let c = nginx_columns();
    assert(c[0].name.len() == 2);
    assert(c[1].name.len() == 4 && c[1].name[0] == 'd' as u8);
    assert(c[2].name.len() == 6 && c[2].name[0] == 'm' as u8);
    assert(c[3].name.len() == 4 && c[3].name[0] == 'p' as u8);
    assert(c[4].name.len() == 5 && c[4].name[0] == 'q' as u8);
    assert(c[5].name.len() == 6 && c[5].name[0] == 's' as u8);
    assert(c[6].name.len() == 5 && c[6].name[0] == 'b' as u8);
    assert(c[7].name.len() == 8);
    assert(c[8].name.len() == 10);
}

/// The schema of an access log.
pub fn create_nginx_log_record_table_definition() -> (r: TableDefinition)
    ensures
        r@ == nginx_columns(),
        distinct_names(r@),
{
    proof {
        reveal_strlit("ip");
        reveal_strlit("date");
        reveal_strlit("method");
        reveal_strlit("path");
        reveal_strlit("query");
        reveal_strlit("status");
        reveal_strlit("bytes");
        reveal_strlit("referrer");
        reveal_strlit("user_agent");
    }
    let mut columns: Vec<ColumnDefinition> = Vec::new();
    columns.push(ColumnDefinition::Text { name: ascii_bytes("ip"), size: 15, source: Field::Ip });
    columns.push(
        ColumnDefinition::Date { name: ascii_bytes("date"), size: 26, source: Field::Date },
    );
    columns.push(
        ColumnDefinition::Text { name: ascii_bytes("method"), size: 5, source: Field::Method },
    );
    columns.push(
        ColumnDefinition::Text { name: ascii_bytes("path"), size: 20, source: Field::Path },
    );
    columns.push(
        ColumnDefinition::Text { name: ascii_bytes("query"), size: 50, source: Field::Query },
    );
    columns.push(
        ColumnDefinition::Integer { name: ascii_bytes("status"), size: 3, source: Field::Status },
    );
    columns.push(
        ColumnDefinition::Integer { name: ascii_bytes("bytes"), size: 10, source: Field::Bytes },
    );
    columns.push(
        ColumnDefinition::Text { name: ascii_bytes("referrer"), size: 50, source: Field::Referrer },
    );
    columns.push(
        ColumnDefinition::Text {
            name: ascii_bytes("user_agent"),
            size: 50,
            source: Field::UserAgent,
        },
    );
    let r = TableDefinition { columns };
    proof {
        assert(r@ =~= nginx_columns());
        lemma_nginx_columns_distinct();
    }
    r
}

} // verus!
