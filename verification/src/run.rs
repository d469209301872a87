//! A whole run: the text of a query and the lines of a log go in, the
//! lines of the table come out.
use vstd::prelude::*;
use crate::text::opt_bytes;
use crate::dates::DateValue;
use crate::grammar::parse_query;
use crate::grammar::query_read;
use crate::grammar::QueryParseError;
use crate::filter::lemma_filter_stable;
use crate::format::field_text;
use crate::format::FieldSpec;
use crate::format::RowSource;
use crate::format::texts_of;
use crate::query::key_index;
use crate::reduce::apply_all;
use crate::reduce::fresh_reducers;
use crate::reduce::projection;
use crate::reduce::ReducerSpec;
use crate::reduce::group_key;
use crate::table::symbol_column;
use crate::table::ColumnKind;
use crate::table::Field;
use crate::nginx::create_nginx_log_record_table_definition;
use crate::nginx::date_agrees;
use crate::nginx::nginx_columns;
use crate::nginx::read_log_record_binary;
use crate::nginx::split_line;
use crate::nginx::split_request;
use crate::nginx::BinaryNginxLogRecord;
use crate::nginx::RecordSpec;
use crate::parser::RipLogQuery;
use crate::query::compiled;
use crate::query::opening_lines;
use crate::query::EvaluatorSpec;
use crate::query::QueryEvaluator;
use crate::text::views_of;
use crate::table::ColumnSpec;
use crate::table::TableDefinition;
use crate::parser::is_aggregate;
use crate::parser::QuerySpec;
use crate::text::ascii;
use crate::text::ascii_bytes;
use crate::text::bytes_contain;
use crate::text::bytes_eq;
use crate::text::contains_bytes;
use crate::validate::checked;
use crate::validate::query_symbols;
use crate::validate::validate_riplog_query;
use crate::validate::QueryValidationError;

verus! {

/// The record that a line is tokenized into, with the date slot given;
/// `None` for a line that is not well formed.
pub open spec fn line_record(line: Seq<u8>, slot: Option<Option<DateValue>>) -> Option<RecordSpec> {
    match split_line(line) {
        Some(p) => {
            let r = split_request(p.request);
            Some(
                RecordSpec {
                    ip: p.ip,
                    date: p.date,
                    method: r.method,
                    path: r.path,
                    query: r.query,
                    status: p.status,
                    bytes: p.bytes,
                    referrer: p.referrer,
                    user_agent: p.user_agent,
                    decoded_date: slot,
                },
            )
        },
        None => None,
    }
}

/// How far a run has come: the state of the evaluator, the rows handed
/// back so far, and the lines skipped because they were not well formed.
pub struct RunSpec {
    pub state: EvaluatorSpec,
    pub rows: Seq<Seq<u8>>,
    pub malformed: nat,
}

/// The row that a record gives, if it gives one, as a list.
pub open spec fn emitted_rows(e: EvaluatorSpec, record: RecordSpec) -> Seq<Seq<u8>> {
    match e.emits(record) {
        Some(row) => seq![row],
        None => Seq::empty(),
    }
}

/// What one line does to a run.  A line is not looked at once the
/// evaluator needs no more; a line that is not well formed is counted and
/// skipped; any other line is evaluated.
pub open spec fn line_step(before: RunSpec, line: Seq<u8>, slot: Option<Option<DateValue>>) -> RunSpec {
    if before.state.stops() {
        before
    } else {
        match line_record(line, slot) {
            None => RunSpec { malformed: before.malformed + 1, ..before },
            Some(record) => RunSpec {
                state: before.state.step(record),
                rows: before.rows + emitted_rows(before.state, record),
                malformed: before.malformed,
            },
        }
    }
}

/// A run from the state `e` over `lines`, taken in order, where the date
/// slot of the record of each line ends up as `slots` says.
pub open spec fn run_lines(
    e: EvaluatorSpec,
    lines: Seq<Seq<u8>>,
    slots: Seq<Option<Option<DateValue>>>,
) -> RunSpec
    decreases lines.len(),
{
    if lines.len() == 0 {
        RunSpec { state: e, rows: Seq::empty(), malformed: 0 }
    } else {
        line_step(run_lines(e, lines.drop_last(), slots.drop_last()), lines.last(), slots.last())
    }
}

/// What became of one line.
#[derive(Debug)]
pub enum LineOutcome {
    /// The evaluator needs no more lines; the line was not looked at.
    Stopped,
    /// The line is not well formed and was skipped.
    Malformed,
    /// The line was evaluated, and this is its row, if it gave one.
    Taken(Option<Vec<u8>>),
}

impl QueryEvaluator {
    /// Takes the first `len` bytes of `buf` as the next line of the log:
    /// tokenizes it into `record` and evaluates the record, unless no more
    /// lines are needed or the line is not well formed.
    pub fn feed(&mut self, record: &mut BinaryNginxLogRecord, buf: &Vec<u8>, len: usize) -> (outcome:
        LineOutcome)
        requires
            len <= buf@.len(),
            old(self)@.wf(),
            old(record).wf(),
        ensures
            final(self)@.wf(),
            final(record).wf(),
            outcome is Stopped <==> old(self)@.stops(),
            outcome is Malformed <==> !old(self)@.stops() && split_line(
                buf@.subrange(0, len as int),
            ) is None,
            !(outcome is Taken) ==> *final(self) == *old(self) && *final(record) == *old(record),
            outcome matches LineOutcome::Taken(row) ==> {
                &&& line_record(buf@.subrange(0, len as int), final(record)@.decoded_date) == Some(
                    final(record)@,
                )
                &&& final(self)@ == old(self)@.step(final(record)@)
                &&& opt_bytes(row) == old(self)@.emits(final(record)@)
            },
    {
        if self.should_stop() {
            return LineOutcome::Stopped;
        }
        if !read_log_record_binary(buf, len, record) {
            return LineOutcome::Malformed;
        }
        let row = self.evaluate(record);
        LineOutcome::Taken(row)
    }
}

/// Once the evaluator needs no more lines, the lines that follow change
/// nothing: a run over `lines` that has stopped after the first `k` of them
/// is the run over those.
pub proof fn lemma_run_after_stop(
    e: EvaluatorSpec,
    lines: Seq<Seq<u8>>,
    slots: Seq<Option<Option<DateValue>>>,
    k: int,
)
    requires
        0 <= k <= lines.len(),
        slots.len() == lines.len(),
        k < lines.len() ==> run_lines(e, lines.subrange(0, k), slots.subrange(0, k)).state.stops(),
    ensures
        run_lines(e, lines, slots) == run_lines(e, lines.subrange(0, k), slots.subrange(0, k)),
    decreases lines.len() - k,
{
    if k < lines.len() {
        let shorter = lines.drop_last();
        let fewer = slots.drop_last();
        assert(shorter.subrange(0, k) =~= lines.subrange(0, k));
        assert(fewer.subrange(0, k) =~= slots.subrange(0, k));
        lemma_run_after_stop(e, shorter, fewer, k);
    } else {
        assert(lines.subrange(0, k) =~= lines);
        assert(slots.subrange(0, k) =~= slots);
    }
}

/// Each date slot that is filled holds what the date column of its line
/// decodes to.
pub open spec fn slots_fit(slots: Seq<Option<Option<DateValue>>>, lines: Seq<Seq<u8>>) -> bool {
    forall|i: int|
        0 <= i < slots.len() ==> ((#[trigger] slots[i]) matches Some(v) ==> (line_record(
            lines[i],
            slots[i],
        ) matches Some(record) && date_agrees(v, record.date_seconds())))
}

/// `true` when `out` is the table of the query `q` over `lines`, where
/// the date slots end up as `slots` says and the table ends with `ending`:
/// the opening lines, the rows of the records, the ending; and `malformed`
/// is the number of lines that were skipped.
pub open spec fn run_gives(
    q: QuerySpec,
    columns: Seq<ColumnSpec>,
    lines: Seq<Seq<u8>>,
    slots: Seq<Option<Option<DateValue>>>,
    ending: Seq<Seq<u8>>,
    out: Seq<Seq<u8>>,
    malformed: nat,
) -> bool {
    let run = run_lines(EvaluatorSpec::start(q, columns), lines, slots);
    &&& slots.len() == lines.len()
    &&& slots_fit(slots, lines)
    &&& run.state.ends_with(ending)
    &&& out == opening_lines(q, columns) + run.rows + ending
    &&& malformed == run.malformed
}

/// `true` when `out` is a table of the query `q` over `lines`.  What a
/// date column shows depends on the zone of the machine, and the order of
/// groups that the sort does not tell apart is open; in all else the
/// table is fixed.
pub open spec fn is_output(
    q: QuerySpec,
    columns: Seq<ColumnSpec>,
    lines: Seq<Seq<u8>>,
    out: Seq<Seq<u8>>,
    malformed: nat,
) -> bool {
    exists|slots: Seq<Option<Option<DateValue>>>, ending: Seq<Seq<u8>>|
        run_gives(q, columns, lines, slots, ending, out, malformed)
}

/// The lines of a table, and how many lines of the log were skipped
/// because they were not well formed.
#[derive(Debug)]
pub struct QueryOutput {
    pub lines: Vec<Vec<u8>>,
    pub malformed: usize,
}

/// Why a query was not run.
#[derive(Debug)]
pub enum QueryError {
    Parse(QueryParseError),
    Validation(QueryValidationError),
}

/// Runs a query that has been read and checked over the lines of a log.
pub fn run_parsed(query: RipLogQuery, definition: TableDefinition, lines: &Vec<Vec<u8>>) -> (out:
    QueryOutput)
    ensures
        is_output(
            compiled(query@, definition@),
            definition@,
            views_of(lines@),
            views_of(out.lines@),
            out.malformed as nat,
        ),
{
    let ghost q = compiled(query@, definition@);
    let ghost columns = definition@;
    let ghost all = views_of(lines@);
    let ghost start = EvaluatorSpec::start(q, columns);
    let (mut evaluator, header) = QueryEvaluator::new(query, definition);
    let mut out = header;
    let mut record = BinaryNginxLogRecord::empty();
    let mut malformed: usize = 0;
    let ghost mut slots: Seq<Option<Option<DateValue>>> = Seq::empty();
    let ghost mut rows: Seq<Seq<u8>> = Seq::empty();
    let n = lines.len();
    let mut i: usize = 0;
    let mut stopped = false;
    assert(all.subrange(0, 0) =~= Seq::<Seq<u8>>::empty());
    assert(views_of(out@) =~= opening_lines(q, columns) + rows);
    while i < n && !stopped
        invariant
            i <= n,
            n == lines@.len(),
            all == views_of(lines@),
            start == EvaluatorSpec::start(q, columns),
            evaluator@.wf(),
            record.wf(),
            malformed <= i,
            slots.len() == i,
            slots_fit(slots, all),
            stopped ==> evaluator@.stops(),
            run_lines(start, all.subrange(0, i as int), slots) == (RunSpec {
                state: evaluator@,
                rows,
                malformed: malformed as nat,
            }),
            views_of(out@) == opening_lines(q, columns) + rows,
        decreases n - i + (if stopped {
            0int
        } else {
            1int
        }),
    {
        let ghost before_slots = slots;
        let ghost before_run = run_lines(start, all.subrange(0, i as int), slots);
        let ghost before_out = views_of(out@);
        let outcome = evaluator.feed(&mut record, &lines[i], lines[i].len());
        proof {
            assert(lines@[i as int]@.subrange(0, lines@[i as int]@.len() as int) =~= all[i as int]);
            let next = all.subrange(0, i + 1);
            assert(next.drop_last() =~= all.subrange(0, i as int));
            assert(next.last() == all[i as int]);
        }
        match outcome {
            LineOutcome::Stopped => {
                stopped = true;
            },
            LineOutcome::Malformed => {
                malformed += 1;
                proof {
                    slots = slots.push(None);
                }
                i += 1;
            },
            LineOutcome::Taken(row) => {
                proof {
                    slots = slots.push(record@.decoded_date);
                    rows = rows + emitted_rows(before_run.state, record@);
                }
                match row {
                    Some(r) => {
                        out.push(r);
                        assert(views_of(out@) =~= before_out.push(r@));
                    },
                    None => {},
                }
                assert(views_of(out@) =~= opening_lines(q, columns) + rows);
                i += 1;
            },
        }
        proof {
            if !stopped {
                assert(slots.drop_last() =~= before_slots);
            }
            assert forall|k: int| 0 <= k < slots.len() implies ((#[trigger] slots[k]) matches Some(
                v,
            ) ==> (line_record(all[k], slots[k]) matches Some(rec) && date_agrees(
                v,
                rec.date_seconds(),
            ))) by {
                if k < before_slots.len() {
                    assert(slots[k] == before_slots[k]);
                }
            }
        }
    }
    proof {
        let seen = slots;
        slots = seen + Seq::new((n - i) as nat, |k: int| None);
        assert(slots.subrange(0, i as int) =~= seen);
        lemma_run_after_stop(start, all, slots, i as int);
        assert forall|k: int| 0 <= k < slots.len() implies ((#[trigger] slots[k]) matches Some(
            v,
        ) ==> (line_record(all[k], slots[k]) matches Some(rec) && date_agrees(
            v,
            rec.date_seconds(),
        ))) by {
            if k < i {
                assert(slots[k] == seen[k]);
            }
        }
    }
    let ghost run = run_lines(start, all, slots);
    let ending = evaluator.finalize();
    let ghost ending_view = views_of(ending@);
    let ghost before_out = views_of(out@);
    let mut ending = ending;
    out.append(&mut ending);
    proof {
        assert(views_of(out@) =~= before_out + ending_view);
        assert(views_of(out@) =~= opening_lines(q, columns) + run.rows + ending_view);
        assert(run_gives(q, columns, all, slots, ending_view, views_of(out@), malformed as nat));
    }
    QueryOutput { lines: out, malformed }
}

/// `true` when `r` is what a run of the query with the text `text` over
/// the lines `lines` of an access log may give: the error of its reading
/// where the grammar refuses the text, or a date literal that is read in
/// the local zone names no date; the error that names the first unknown
/// column where its check fails; and otherwise a table of the query.
pub open spec fn run_outcome(r: Result<QueryOutput, QueryError>, text: Seq<u8>, lines: Seq<Seq<u8>>) -> bool {
    match r {
        Err(QueryError::Parse(e)) => query_read(Err(e), text),
        Err(QueryError::Validation(v)) => exists|q: RipLogQuery| #[trigger]
            query_read(Ok(q), text) && checked(Err(v), query_symbols(q@), nginx_columns()),
        Ok(out) => exists|q: RipLogQuery| #[trigger]
            query_read(Ok(q), text) && checked(Ok(()), query_symbols(q@), nginx_columns())
                && is_output(
                compiled(q@, nginx_columns()),
                nginx_columns(),
                lines,
                views_of(out.lines@),
                out.malformed as nat,
            ),
    }
}

/// Reads and checks the query `query` and runs it over `lines`, the lines
/// of an access log in NGINX combined format.
pub fn run_query(query: &[u8], lines: &Vec<Vec<u8>>) -> (r: Result<QueryOutput, QueryError>)
    ensures
        run_outcome(r, query@, views_of(lines@)),
{
    let definition = create_nginx_log_record_table_definition();
    let parsed = match parse_query(query) {
        Ok(q) => q,
        Err(e) => {
            return Err(QueryError::Parse(e));
        },
    };
    let ghost q = parsed;
    assert(query_read(Ok(q), query@));
    match validate_riplog_query(&parsed, &definition) {
        Ok(_) => {},
        Err(v) => {
            return Err(QueryError::Validation(v));
        },
    }
    Ok(run_parsed(parsed, definition, lines))
}

/// How the driver reads a file of the log directory.
#[derive(Clone, Copy, Debug, PartialEq, Eq, Structural)]
pub enum LogFileKind {
    /// Compressed with gzip.
    Gzip,
    /// Plain text.
    Plain,
    /// Not a log; left alone.
    Ignored,
}

/// `name` ends with `suffix`.
pub open spec fn has_suffix(name: Seq<u8>, suffix: Seq<u8>) -> bool {
    name.len() >= suffix.len() && name.subrange(name.len() - suffix.len(), name.len() as int)
        == suffix
}

/// How a file is read, by its name: as gzip where the name ends in `.gz`
/// and does not hold `error`; otherwise as plain text where it holds
/// `access.log`; otherwise not at all.
pub open spec fn log_file_kind(name: Seq<u8>) -> LogFileKind {
    if !contains_bytes(name, ascii("error")) && has_suffix(name, ascii(".gz")) {
        LogFileKind::Gzip
    } else if contains_bytes(name, ascii("access.log")) {
        LogFileKind::Plain
    } else {
        LogFileKind::Ignored
    }
}

/// How the file called `name` is read.
pub fn classify_log_file(name: &[u8]) -> (kind: LogFileKind)
    ensures
        kind == log_file_kind(name@),
{
    proof {
        reveal_strlit("error");
        reveal_strlit(".gz");
        reveal_strlit("access.log");
    }
    let error = ascii_bytes("error");
    let gz = ascii_bytes(".gz");
    let access = ascii_bytes("access.log");
    let n = name.len();
    let zipped = n >= gz.len() && bytes_eq(
        vstd::slice::slice_subrange(name, n - gz.len(), n),
        gz.as_slice(),
    );
    if !bytes_contain(name, error.as_slice()) && zipped {
        LogFileKind::Gzip
    } else if bytes_contain(name, access.as_slice()) {
        LogFileKind::Plain
    } else {
        LogFileKind::Ignored
    }
}

/// How many of `lines` are well formed and pass the filter.
pub open spec fn matching_lines(e: EvaluatorSpec, lines: Seq<Seq<u8>>) -> nat
    decreases lines.len(),
{
    if lines.len() == 0 {
        0
    } else {
        matching_lines(e, lines.drop_last()) + (match line_record(lines.last(), None) {
            Some(record) => if e.accepts(record) {
                1nat
            } else {
                0nat
            },
            None => 0nat,
        })
    }
}

/// The smaller of two numbers.
pub open spec fn least(a: int, b: int) -> int {
    if a < b {
        a
    } else {
        b
    }
}

/// A query that is no aggregate hands back one row for each line that is
/// well formed and passes the filter, until it has handed back as many as
/// its limit allows: from a state that has shown `e.printed` of `limit`
/// rows, exactly the smaller of `limit - e.printed` and the number of such
/// lines.
pub proof fn lemma_rows_under_limit(
    e: EvaluatorSpec,
    lines: Seq<Seq<u8>>,
    slots: Seq<Option<Option<DateValue>>>,
    limit: usize,
)
    requires
        !e.aggregate,
        e.query.limit == Some(limit),
        e.printed <= limit,
        slots.len() == lines.len(),
    ensures
        run_lines(e, lines, slots).rows.len() == least(
            limit - e.printed,
            matching_lines(e, lines) as int,
        ),
        run_lines(e, lines, slots).state.printed == e.printed + run_lines(e, lines, slots).rows.len(),
        run_lines(e, lines, slots).state.query == e.query,
        run_lines(e, lines, slots).state.columns == e.columns,
        run_lines(e, lines, slots).state.aggregate == e.aggregate,
    decreases lines.len(),
{
    if lines.len() > 0 {
        lemma_rows_under_limit(e, lines.drop_last(), slots.drop_last(), limit);
        let before = run_lines(e, lines.drop_last(), slots.drop_last());
        match line_record(lines.last(), slots.last()) {
            Some(record) => {
                let bare = line_record(lines.last(), None)->0;
                match e.query.filter {
                    Some(f) => lemma_filter_stable(f, e.columns, bare, record),
                    None => {},
                }
            },
            None => {},
        }
    }
}

/// A query that is no aggregate and has no limit hands back one row for
/// each line that is well formed and passes the filter.
pub proof fn lemma_rows_without_limit(
    e: EvaluatorSpec,
    lines: Seq<Seq<u8>>,
    slots: Seq<Option<Option<DateValue>>>,
)
    requires
        !e.aggregate,
        e.query.limit is None,
        slots.len() == lines.len(),
    ensures
        run_lines(e, lines, slots).rows.len() == matching_lines(e, lines),
        run_lines(e, lines, slots).state.query == e.query,
        run_lines(e, lines, slots).state.columns == e.columns,
        run_lines(e, lines, slots).state.aggregate == e.aggregate,
    decreases lines.len(),
{
    if lines.len() > 0 {
        lemma_rows_without_limit(e, lines.drop_last(), slots.drop_last());
        match line_record(lines.last(), slots.last()) {
            Some(record) => {
                let bare = line_record(lines.last(), None)->0;
                match e.query.filter {
                    Some(f) => lemma_filter_stable(f, e.columns, bare, record),
                    None => {},
                }
            },
            None => {},
        }
    }
}

/// The rows of a query that is no aggregate are as many as its limit and
/// the log allow: a table of such a query holds the three lines of the
/// header, one row for each line that is well formed and passes the
/// filter, up to the limit if there is one, and the closing line.
pub proof fn lemma_output_rows(
    q: QuerySpec,
    columns: Seq<ColumnSpec>,
    lines: Seq<Seq<u8>>,
    out: Seq<Seq<u8>>,
    malformed: nat,
)
    requires
        !is_aggregate(q),
        is_output(q, columns, lines, out, malformed),
    ensures
        out.len() == 3 + (match q.limit {
            Some(limit) => least(
                limit as int,
                matching_lines(EvaluatorSpec::start(q, columns), lines) as int,
            ),
            None => matching_lines(EvaluatorSpec::start(q, columns), lines) as int,
        }) + 1,
{
    let (slots, ending) = choose|slots: Seq<Option<Option<DateValue>>>, ending: Seq<Seq<u8>>|
        run_gives(q, columns, lines, slots, ending, out, malformed);
    let e = EvaluatorSpec::start(q, columns);
    match q.limit {
        Some(limit) => lemma_rows_under_limit(e, lines, slots, limit),
        None => lemma_rows_without_limit(e, lines, slots),
    }
}

/// `true` when the column called `name` shows the date of a record.
pub open spec fn shows_date(columns: Seq<ColumnSpec>, name: Seq<u8>) -> bool {
    match symbol_column(columns, name) {
        Some(c) => c.kind == ColumnKind::Date && c.source == Field::Date,
        None => false,
    }
}

/// `true` when neither the table nor the grouping of the query shows the
/// date of a record.
pub open spec fn date_free(e: EvaluatorSpec) -> bool {
    &&& forall|i: int|
        0 <= i < e.formatter.fields.len() ==> ((#[trigger] e.formatter.fields[i]) matches FieldSpec::Symbol {
            symbol,
            ..
        } ==> !shows_date(e.columns, symbol))
    &&& e.query.grouping matches Some(g) ==> forall|i: int|
        0 <= i < g.len() ==> !shows_date(e.columns, #[trigger] g[i])
}

/// A column that does not show the date shows the same for records of
/// the same columns.
proof fn lemma_texts_ignore_slot(
    fields: Seq<FieldSpec>,
    columns: Seq<ColumnSpec>,
    a: RecordSpec,
    b: RecordSpec,
)
    requires
        a.same_columns(b),
        forall|i: int|
            0 <= i < fields.len() ==> ((#[trigger] fields[i]) matches FieldSpec::Symbol { symbol, .. }
                ==> !shows_date(columns, symbol)),
    ensures
        texts_of(fields, RowSource::Record(columns, a)) == texts_of(
            fields,
            RowSource::Record(columns, b),
        ),
{
    assert forall|i: int| 0 <= i < fields.len() implies field_text(
        #[trigger] fields[i],
        RowSource::Record(columns, a),
    ) == field_text(fields[i], RowSource::Record(columns, b)) by {}
    assert(texts_of(fields, RowSource::Record(columns, a)) =~= texts_of(
        fields,
        RowSource::Record(columns, b),
    ));
}

/// The key of a grouping that does not show the date is the same for
/// records of the same columns.
proof fn lemma_key_ignores_slot(g: Seq<Seq<u8>>, columns: Seq<ColumnSpec>, a: RecordSpec, b: RecordSpec)
    requires
        a.same_columns(b),
        forall|i: int| 0 <= i < g.len() ==> !shows_date(columns, #[trigger] g[i]),
    ensures
        group_key(g, columns, a) == group_key(g, columns, b),
{
    assert(group_key(g, columns, a) =~= group_key(g, columns, b));
}

/// Reducers see the columns of a record only.
proof fn lemma_reducers_ignore_slot(
    rs: Seq<ReducerSpec>,
    columns: Seq<ColumnSpec>,
    a: RecordSpec,
    b: RecordSpec,
)
    requires
        a.same_columns(b),
    ensures
        apply_all(rs, columns, a) == apply_all(rs, columns, b),
{
    assert(apply_all(rs, columns, a) =~= apply_all(rs, columns, b));
}

/// The filter sees the columns of a record only.
proof fn lemma_filter_ignores_slot(e: EvaluatorSpec, a: RecordSpec, b: RecordSpec)
    requires
        a.same_columns(b),
    ensures
        e.accepts(a) == e.accepts(b),
{
    let bare = RecordSpec { decoded_date: None, ..a };
    match e.query.filter {
        Some(f) => {
            lemma_filter_stable(f, e.columns, bare, a);
            lemma_filter_stable(f, e.columns, bare, b);
        },
        None => {},
    }
}

/// Where a query shows no date, a record does to the evaluation what any
/// record of the same columns does, whatever it has decoded.
pub proof fn lemma_step_ignores_slot(e: EvaluatorSpec, a: RecordSpec, b: RecordSpec)
    requires
        date_free(e),
        a.same_columns(b),
    ensures
        e.step(a) == e.step(b),
        e.emits(a) == e.emits(b),
        date_free(e.step(a)),
{
    lemma_filter_ignores_slot(e, a, b);
    lemma_texts_ignore_slot(e.formatter.fields, e.columns, a, b);
    match e.query.grouping {
        Some(g) => {
            lemma_key_ignores_slot(g, e.columns, a, b);
            let key = group_key(g, e.columns, a);
            let fresh = fresh_reducers(
                projection(e.query.computed_show),
            );
            lemma_reducers_ignore_slot(fresh, e.columns, a, b);
            let at = key_index(e.groups, key);
            lemma_reducers_ignore_slot(e.groups[at].reducers, e.columns, a, b);
        },
        None => {
            lemma_reducers_ignore_slot(e.global, e.columns, a, b);
        },
    }
    let after = e.step(a);
    assert forall|i: int| 0 <= i < after.formatter.fields.len() implies ((
    #[trigger] after.formatter.fields[i]) matches FieldSpec::Symbol { symbol, .. } ==> !shows_date(
        after.columns,
        symbol,
    )) by {
        let before = e.formatter.fields[i];
        assert(before matches FieldSpec::Symbol { symbol, .. } ==> !shows_date(e.columns, symbol));
    }
}

/// Where a query shows no date, its run does not depend on what the
/// records have decoded: the table is a function of the query and the
/// lines alone.
pub proof fn lemma_run_ignores_slots(
    e: EvaluatorSpec,
    lines: Seq<Seq<u8>>,
    first: Seq<Option<Option<DateValue>>>,
    second: Seq<Option<Option<DateValue>>>,
)
    requires
        date_free(e),
        first.len() == lines.len(),
        second.len() == lines.len(),
    ensures
        run_lines(e, lines, first) == run_lines(e, lines, second),
        date_free(run_lines(e, lines, first).state),
    decreases lines.len(),
{
    if lines.len() > 0 {
        lemma_run_ignores_slots(e, lines.drop_last(), first.drop_last(), second.drop_last());
        let before = run_lines(e, lines.drop_last(), first.drop_last());
        match (line_record(lines.last(), first.last()), line_record(lines.last(), second.last())) {
            (Some(a), Some(b)) => {
                lemma_step_ignores_slot(before.state, a, b);
            },
            _ => {},
        }
    }
}

} // verus!
