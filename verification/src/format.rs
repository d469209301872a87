//! The table: cells padded to the width of their column, rows of cells,
//! the header and the rules above and below it.
use vstd::prelude::*;
use crate::text::push_bytes;
use crate::text::push_repeat;
use crate::text::repeat;
use crate::nginx::BinaryNginxLogRecord;
use crate::nginx::RecordSpec;
use crate::nginx::SPACE;
use crate::parser::QueryReducer;
use crate::parser::QueryShowElement;
use crate::parser::QuerySortElement;
use crate::parser::QuerySortOrdering;
use crate::parser::QuerySpec;
use crate::parser::RipLogQuery;
use crate::parser::ShowSpec;
use crate::parser::SortSpec;
use crate::reduce::projection;
use crate::table::symbol_column;
use crate::text::bytes_eq;
use crate::reduce::null_bytes;
use crate::reduce::null_text;
use crate::reduce::or_null;
use crate::reduce::results_of;
use crate::text::views_of;
use crate::reduce::Reducer;
use crate::table::get_symbol_as_string;
use crate::table::lemma_symbol_stable;
use crate::table::symbol_ready;
use crate::table::symbol_shown;
use crate::table::ColumnSpec;
use crate::table::TableDefinition;
use crate::text::copy_bytes;
use crate::text::decimal_digits;
use crate::text::render_u64;

verus! {

/// No column grows wider than this.
pub const MAX_WIDTH: usize = 50;

/// The width that the column of a reducer starts at.
pub const REDUCER_WIDTH: usize = 10;

pub const BAR: u8 = 0x7c;

pub const HYPHEN: u8 = 0x2d;

pub const CORNER: u8 = 0x2b;

pub const OPEN_PAREN: u8 = 0x28;

pub const CLOSE_PAREN: u8 = 0x29;

/// The width of a column after it has shown a text of `len` bytes: it
/// grows to fit the text, but not beyond `MAX_WIDTH`, and never shrinks.
pub open spec fn fit(width: usize, len: nat) -> usize {
    if width < len && width < MAX_WIDTH {
        if len < MAX_WIDTH {
            len as usize
        } else {
            MAX_WIDTH
        }
    } else {
        width
    }
}

/// `text` in exactly `width` bytes: cut at `width` where it is longer,
/// filled up with spaces on the right where it is shorter.
pub open spec fn padded(text: Seq<u8>, width: nat) -> Seq<u8> {
    if text.len() >= width {
        text.subrange(0, width as int)
    } else {
        text + repeat(SPACE, (width - text.len()) as nat)
    }
}

/// A cell: the text in `width` bytes, with one space before and after.
pub open spec fn cell(text: Seq<u8>, width: nat) -> Seq<u8> {
    seq![SPACE] + padded(text, width) + seq![SPACE]
}

/// A cell is as wide as its column and two spaces; a column never
/// shrinks, and one that starts no wider than `MAX_WIDTH` never grows
/// beyond it; a text that fits is shown whole.
pub proof fn lemma_cell_width(text: Seq<u8>, width: usize)
    ensures
        fit(width, text.len()) >= width,
        width <= MAX_WIDTH ==> fit(width, text.len()) <= MAX_WIDTH,
        text.len() <= MAX_WIDTH ==> fit(width, text.len()) >= text.len(),
        padded(text, fit(width, text.len()) as nat).len() == fit(width, text.len()),
        cell(text, fit(width, text.len()) as nat).len() == fit(width, text.len()) + 2,
        text.len() <= fit(width, text.len()) ==> padded(
            text,
            fit(width, text.len()) as nat,
        ).subrange(0, text.len() as int) == text,
{
    let w = fit(width, text.len()) as nat;
    if text.len() <= w {
        assert(padded(text, w).subrange(0, text.len() as int) =~= text);
    }
}

/// The width of a column after it has shown `text`.
pub fn fit_width(width: usize, text: &[u8]) -> (r: usize)
    ensures
        r == fit(width, text@.len()),
        r >= width,
{
    let len = text.len();
    if width < len && width < MAX_WIDTH {
        if len < MAX_WIDTH {
            len
        } else {
            MAX_WIDTH
        }
    } else {
        width
    }
}

/// Appends the cell of `text` at `width`.
pub fn push_cell(out: &mut Vec<u8>, text: &[u8], width: usize)
    ensures
        final(out)@ == old(out)@ + cell(text@, width as nat),
{
    out.push(SPACE);
    let len = text.len();
    if len >= width {
        push_bytes(out, vstd::slice::slice_subrange(text, 0, width));
    } else {
        push_bytes(out, text);
        push_repeat(out, SPACE, width - len);
    }
    out.push(SPACE);
    assert(out@ =~= old(out)@ + cell(text@, width as nat));
}

/// A column of the table that shows a column of the record.
#[derive(Debug, Clone)]
pub struct SymbolOutputField {
    pub symbol: Vec<u8>,
    pub size: usize,
}

/// A column of the table that shows one part of the group key.
#[derive(Debug, Clone)]
pub struct GroupOutputField {
    pub symbol: Vec<u8>,
    pub idx: usize,
    pub size: usize,
}

/// A column of the table that shows what one reducer reports.
#[derive(Debug, Clone)]
pub struct ReducedOutputField {
    pub reducer: QueryReducer,
    pub symbol: Vec<u8>,
    pub idx: usize,
    pub size: usize,
}

/// A column of the table.
#[derive(Debug, Clone)]
pub enum OutputField {
    Symbol(SymbolOutputField),
    Group(GroupOutputField),
    Reduced(ReducedOutputField),
}

/// An `OutputField` as a plain value.
pub enum FieldSpec {
    Symbol { symbol: Seq<u8>, size: usize },
    Group { symbol: Seq<u8>, idx: usize, size: usize },
    Reduced { reducer: QueryReducer, symbol: Seq<u8>, idx: usize, size: usize },
}

impl FieldSpec {
    /// The width of the column.
    pub open spec fn size(self) -> usize {
        match self {
            FieldSpec::Symbol { size, .. } => size,
            FieldSpec::Group { size, .. } => size,
            FieldSpec::Reduced { size, .. } => size,
        }
    }

    /// The same column at another width.
    pub open spec fn with_size(self, size: usize) -> FieldSpec {
        match self {
            FieldSpec::Symbol { symbol, .. } => FieldSpec::Symbol { symbol, size },
            FieldSpec::Group { symbol, idx, .. } => FieldSpec::Group { symbol, idx, size },
            FieldSpec::Reduced { reducer, symbol, idx, .. } => FieldSpec::Reduced {
                reducer,
                symbol,
                idx,
                size,
            },
        }
    }

    /// What the header says of the column: the name of the column it
    /// shows, or `reducer(symbol)`.
    pub open spec fn label(self) -> Seq<u8> {
        match self {
            FieldSpec::Symbol { symbol, .. } => symbol,
            FieldSpec::Group { symbol, .. } => symbol,
            FieldSpec::Reduced { reducer, symbol, .. } => reducer_label(reducer, symbol),
        }
    }

    /// The column after it has shown `text`.
    pub open spec fn grown(self, text: Seq<u8>) -> FieldSpec {
        self.with_size(fit(self.size(), text.len()))
    }
}

/// The label `reducer(symbol)`.
pub open spec fn reducer_label(reducer: QueryReducer, symbol: Seq<u8>) -> Seq<u8> {
    reducer.label() + seq![OPEN_PAREN] + symbol + seq![CLOSE_PAREN]
}

/// The label `reducer(symbol)`.
pub fn make_reducer_label(reducer: QueryReducer, symbol: &[u8]) -> (r: Vec<u8>)
    ensures
        r@ == reducer_label(reducer, symbol@),
{
    let mut r = reducer.to_string();
    r.push(OPEN_PAREN);
    push_bytes(&mut r, symbol);
    r.push(CLOSE_PAREN);
    assert(r@ =~= reducer_label(reducer, symbol@));
    r
}

/// What a row is made from: a record and the schema to read it by, the
/// key of a group and what its reducers report, or what the reducers of
/// the whole stream report.
pub enum RowSource {
    Record(Seq<ColumnSpec>, RecordSpec),
    Group(Seq<Seq<u8>>, Seq<u64>),
    Total(Seq<u64>),
}

/// The part of a group key at `idx`, if the key is that long.
pub open spec fn key_part(key: Seq<Seq<u8>>, idx: usize) -> Option<Seq<u8>> {
    if idx < key.len() {
        Some(key[idx as int])
    } else {
        None
    }
}

/// What the reducer at `idx` reports, if there are that many.
pub open spec fn result_part(results: Seq<u64>, idx: usize) -> Option<u64> {
    if idx < results.len() {
        Some(results[idx as int])
    } else {
        None
    }
}

/// A number in decimal.
pub open spec fn number_text(n: Option<u64>) -> Option<Seq<u8>> {
    match n {
        Some(v) => Some(decimal_digits(v as nat)),
        None => None,
    }
}

/// The text that a column shows in a row, `null` where the row has no
/// value for it.
pub open spec fn field_text(f: FieldSpec, source: RowSource) -> Seq<u8> {
    match f {
        FieldSpec::Symbol { symbol, .. } => match source {
            RowSource::Record(columns, record) => or_null(symbol_shown(columns, symbol, record)),
            _ => null_text(),
        },
        FieldSpec::Group { idx, .. } => match source {
            RowSource::Group(key, _) => or_null(key_part(key, idx)),
            _ => null_text(),
        },
        FieldSpec::Reduced { idx, .. } => match source {
            RowSource::Group(_, results) => or_null(number_text(result_part(results, idx))),
            RowSource::Total(results) => or_null(number_text(result_part(results, idx))),
            _ => null_text(),
        },
    }
}

impl View for SymbolOutputField {
    type V = FieldSpec;

    open spec fn view(&self) -> FieldSpec {
        FieldSpec::Symbol { symbol: self.symbol@, size: self.size }
    }
}

impl View for GroupOutputField {
    type V = FieldSpec;

    open spec fn view(&self) -> FieldSpec {
        FieldSpec::Group { symbol: self.symbol@, idx: self.idx, size: self.size }
    }
}

impl View for ReducedOutputField {
    type V = FieldSpec;

    open spec fn view(&self) -> FieldSpec {
        FieldSpec::Reduced {
            reducer: self.reducer,
            symbol: self.symbol@,
            idx: self.idx,
            size: self.size,
        }
    }
}

impl View for OutputField {
    type V = FieldSpec;

    open spec fn view(&self) -> FieldSpec {
        match self {
            OutputField::Symbol(f) => f@,
            OutputField::Group(f) => f@,
            OutputField::Reduced(f) => f@,
        }
    }
}

impl SymbolOutputField {
    pub fn name(&self) -> (r: Vec<u8>)
        ensures
            r@ == self@.label(),
    {
        copy_bytes(self.symbol.as_slice())
    }

    /// The header cell; the column grows to fit its label.
    pub fn header(&mut self) -> (r: Vec<u8>)
        ensures
            final(self)@ == old(self)@.grown(old(self)@.label()),
            r@ == cell(old(self)@.label(), final(self)@.size() as nat),
    {
        self.size = fit_width(self.size, self.symbol.as_slice());
        let mut r: Vec<u8> = Vec::new();
        push_cell(&mut r, self.symbol.as_slice(), self.size);
        r
    }

    /// What the column shows for `record`.
    pub fn value(&self, tdef: &TableDefinition, record: &mut BinaryNginxLogRecord) -> (r: Vec<u8>)
        requires
            old(record).wf(),
        ensures
            final(record).wf(),
            old(record)@.extended_by(final(record)@),
            symbol_ready(tdef@, self.symbol@, final(record)@),
            r@ == field_text(self@, RowSource::Record(tdef@, final(record)@)),
    {
        match get_symbol_as_string(tdef, record, self.symbol.as_slice()) {
            Some(t) => t,
            None => null_bytes(),
        }
    }

    /// The cell of `output`; the column grows to fit it.
    pub fn format_field(&mut self, output: &[u8]) -> (r: Vec<u8>)
        ensures
            final(self)@ == old(self)@.grown(output@),
            r@ == cell(output@, final(self)@.size() as nat),
    {
        self.size = fit_width(self.size, output);
        let mut r: Vec<u8> = Vec::new();
        push_cell(&mut r, output, self.size);
        r
    }

    pub fn size(&self) -> (r: usize)
        ensures
            r == self@.size(),
    {
        self.size
    }
}

impl GroupOutputField {
    pub fn name(&self) -> (r: Vec<u8>)
        ensures
            r@ == self@.label(),
    {
        copy_bytes(self.symbol.as_slice())
    }

    /// The header cell; the column grows to fit its label.
    pub fn header(&mut self) -> (r: Vec<u8>)
        ensures
            final(self)@ == old(self)@.grown(old(self)@.label()),
            r@ == cell(old(self)@.label(), final(self)@.size() as nat),
    {
        self.size = fit_width(self.size, self.symbol.as_slice());
        let mut r: Vec<u8> = Vec::new();
        push_cell(&mut r, self.symbol.as_slice(), self.size);
        r
    }

    /// What the column shows for the group with `group_key`.
    pub fn value(&self, group_key: Option<&Vec<Vec<u8>>>) -> (r: Vec<u8>)
        ensures
            r@ == (match group_key {
                Some(key) => or_null(key_part(views_of(key@), self.idx)),
                None => null_text(),
            }),
    {
        match group_key {
            Some(key) => {
                if self.idx < key.len() {
                    copy_bytes(key[self.idx].as_slice())
                } else {
                    null_bytes()
                }
            },
            None => null_bytes(),
        }
    }

    /// The cell of `output`; the column grows to fit it.
    pub fn format_field(&mut self, output: &[u8]) -> (r: Vec<u8>)
        ensures
            final(self)@ == old(self)@.grown(output@),
            r@ == cell(output@, final(self)@.size() as nat),
    {
        self.size = fit_width(self.size, output);
        let mut r: Vec<u8> = Vec::new();
        push_cell(&mut r, output, self.size);
        r
    }

    pub fn size(&self) -> (r: usize)
        ensures
            r == self@.size(),
    {
        self.size
    }
}

impl ReducedOutputField {
    pub fn name(&self) -> (r: Vec<u8>)
        ensures
            r@ == self@.label(),
    {
        make_reducer_label(self.reducer, self.symbol.as_slice())
    }

    /// The header cell; the column grows to fit its label.
    pub fn header(&mut self) -> (r: Vec<u8>)
        ensures
            final(self)@ == old(self)@.grown(old(self)@.label()),
            r@ == cell(old(self)@.label(), final(self)@.size() as nat),
    {
        let name = make_reducer_label(self.reducer, self.symbol.as_slice());
        self.size = fit_width(self.size, name.as_slice());
        let mut r: Vec<u8> = Vec::new();
        push_cell(&mut r, name.as_slice(), self.size);
        r
    }

    /// What the column shows for the reducers of a group or of the stream.
    pub fn value(&self, reducer: Option<&Reducer>) -> (r: Vec<u8>)
        ensures
            r@ == (match reducer {
                Some(red) => or_null(number_text(result_part(results_of(red@), self.idx))),
                None => null_text(),
            }),
    {
        match reducer {
            Some(red) => match red.result_at(self.idx) {
                Some(n) => render_u64(n),
                None => null_bytes(),
            },
            None => null_bytes(),
        }
    }

    /// The cell of `output`; the column grows to fit it.
    pub fn format_field(&mut self, output: &[u8]) -> (r: Vec<u8>)
        ensures
            final(self)@ == old(self)@.grown(output@),
            r@ == cell(output@, final(self)@.size() as nat),
    {
        self.size = fit_width(self.size, output);
        let mut r: Vec<u8> = Vec::new();
        push_cell(&mut r, output, self.size);
        r
    }

    pub fn size(&self) -> (r: usize)
        ensures
            r == self@.size(),
    {
        self.size
    }
}

impl OutputField {
    /// What the header says of the column.
    pub fn name(&self) -> (r: Vec<u8>)
        ensures
            r@ == self@.label(),
    {
        match self {
            OutputField::Symbol(f) => f.name(),
            OutputField::Group(f) => f.name(),
            OutputField::Reduced(f) => f.name(),
        }
    }

    /// The header cell; the column grows to fit its label.
    pub fn header(&mut self) -> (r: Vec<u8>)
        ensures
            final(self)@ == old(self)@.grown(old(self)@.label()),
            r@ == cell(old(self)@.label(), final(self)@.size() as nat),
    {
        match self {
            OutputField::Symbol(f) => f.header(),
            OutputField::Group(f) => f.header(),
            OutputField::Reduced(f) => f.header(),
        }
    }

    /// What the column shows for `record`.
    pub fn record_text(&self, tdef: &TableDefinition, record: &mut BinaryNginxLogRecord) -> (r: Vec<
        u8,
    >)
        requires
            old(record).wf(),
        ensures
            final(record).wf(),
            old(record)@.extended_by(final(record)@),
            field_ready(self@, tdef@, final(record)@),
            r@ == field_text(self@, RowSource::Record(tdef@, final(record)@)),
    {
        match self {
            OutputField::Symbol(f) => f.value(tdef, record),
            OutputField::Group(f) => f.value(None),
            OutputField::Reduced(f) => f.value(None),
        }
    }

    /// What the column shows for a group, or for the whole stream where
    /// there is no key.
    pub fn group_text(&self, group_key: Option<&Vec<Vec<u8>>>, reducer: &Reducer) -> (r: Vec<u8>)
        ensures
            r@ == field_text(self@, group_source(group_key, reducer)),
    {
        match self {
            OutputField::Symbol(_) => null_bytes(),
            OutputField::Group(f) => f.value(group_key),
            OutputField::Reduced(f) => f.value(Some(reducer)),
        }
    }

    /// The cell of `output`; the column grows to fit it.
    pub fn format_field(&mut self, output: &[u8]) -> (r: Vec<u8>)
        ensures
            final(self)@ == old(self)@.grown(output@),
            r@ == cell(output@, final(self)@.size() as nat),
    {
        match self {
            OutputField::Symbol(f) => f.format_field(output),
            OutputField::Group(f) => f.format_field(output),
            OutputField::Reduced(f) => f.format_field(output),
        }
    }

    pub fn size(&self) -> (r: usize)
        ensures
            r == self@.size(),
    {
        match self {
            OutputField::Symbol(f) => f.size(),
            OutputField::Group(f) => f.size(),
            OutputField::Reduced(f) => f.size(),
        }
    }
}

/// The source of the row of a group, or of the whole stream where there
/// is no key.
pub open spec fn group_source(group_key: Option<&Vec<Vec<u8>>>, reducer: &Reducer) -> RowSource {
    match group_key {
        Some(key) => RowSource::Group(views_of(key@), results_of(reducer@)),
        None => RowSource::Total(results_of(reducer@)),
    }
}

/// `true` when the record has decoded its date, if the column shows it.
pub open spec fn field_ready(f: FieldSpec, columns: Seq<ColumnSpec>, record: RecordSpec) -> bool {
    match f {
        FieldSpec::Symbol { symbol, .. } => symbol_ready(columns, symbol, record),
        _ => true,
    }
}

/// Index of the first of `names` that is `name`, or their number when
/// none is.
pub open spec fn name_index(names: Seq<Seq<u8>>, name: Seq<u8>) -> int
    decreases names.len(),
{
    if names.len() == 0 {
        0
    } else if names[0] == name {
        0
    } else {
        1 + name_index(names.drop_first(), name)
    }
}

/// A position that holds `name` with none before it is the one
/// `name_index` names.
pub proof fn lemma_name_index_unique(names: Seq<Seq<u8>>, name: Seq<u8>, at: int)
    requires
        0 <= at <= names.len(),
        at < names.len() ==> names[at] == name,
        forall|j: int| 0 <= j < at ==> #[trigger] names[j] != name,
    ensures
        name_index(names, name) == at,
    decreases names.len(),
{
    if names.len() > 0 && at > 0 {
        let rest = names.drop_first();
        assert(names[0] != name);
        assert forall|j: int| 0 <= j < at - 1 implies #[trigger] rest[j] != name by {
            assert(rest[j] == names[j + 1]);
        }
        lemma_name_index_unique(rest, name, at - 1);
    }
}

/// The part of the group key that shows the column `symbol`: the first
/// grouping column of that name.
pub open spec fn group_idx(grouping: Option<Seq<Seq<u8>>>, symbol: Seq<u8>) -> Option<usize> {
    match grouping {
        Some(names) => if name_index(names, symbol) < names.len() {
            Some(name_index(names, symbol) as usize)
        } else {
            None
        },
        None => None,
    }
}

/// How many reducers stand in a projection before the first reducer of
/// the given kind over the given column; their whole number when there is
/// no such reducer.
pub open spec fn reduce_index(show: Seq<ShowSpec>, kind: QueryReducer, symbol: Seq<u8>) -> int
    decreases show.len(),
{
    if show.len() == 0 {
        0
    } else {
        match show[0] {
            ShowSpec::Reducer(k, s) => if k == kind && s == symbol {
                0
            } else {
                1 + reduce_index(show.drop_first(), kind, symbol)
            },
            _ => reduce_index(show.drop_first(), kind, symbol),
        }
    }
}

/// How many reducers a projection holds.
pub open spec fn reducer_count(show: Seq<ShowSpec>) -> int
    decreases show.len(),
{
    if show.len() == 0 {
        0
    } else {
        reducer_count(show.drop_first()) + if show[0] is Reducer {
            1int
        } else {
            0int
        }
    }
}

/// The reducer that a column of the table reports: the first of that kind
/// over that column.
pub open spec fn reduce_idx(show: Seq<ShowSpec>, kind: QueryReducer, symbol: Seq<u8>) -> Option<usize> {
    if reduce_index(show, kind, symbol) < reducer_count(show) {
        Some(reduce_index(show, kind, symbol) as usize)
    } else {
        None
    }
}

/// The width that the column called `symbol` starts at: the one the schema
/// gives it, or `REDUCER_WIDTH` where the schema has no such column.
pub open spec fn start_width(columns: Seq<ColumnSpec>, symbol: Seq<u8>) -> usize {
    match symbol_column(columns, symbol) {
        Some(c) => c.size,
        None => REDUCER_WIDTH,
    }
}

/// The column of the table that one element of the projection gives:
/// a plain column shows a part of the group key where the query groups by
/// it and a column of the record otherwise; `*` gives none.
pub open spec fn plan_field(e: ShowSpec, q: QuerySpec, columns: Seq<ColumnSpec>) -> Option<FieldSpec> {
    match e {
        ShowSpec::Symbol(symbol) => match group_idx(q.grouping, symbol) {
            Some(idx) => Some(
                FieldSpec::Group { symbol, idx, size: start_width(columns, symbol) },
            ),
            None => Some(FieldSpec::Symbol { symbol, size: start_width(columns, symbol) }),
        },
        ShowSpec::Reducer(reducer, symbol) => match reduce_idx(
            projection(q.computed_show),
            reducer,
            symbol,
        ) {
            Some(idx) => Some(FieldSpec::Reduced { reducer, symbol, idx, size: REDUCER_WIDTH }),
            None => None,
        },
        ShowSpec::All => None,
    }
}

/// The columns of the table for the elements `show`, in order.
pub open spec fn plan_fields(show: Seq<ShowSpec>, q: QuerySpec, columns: Seq<ColumnSpec>) -> Seq<
    FieldSpec,
>
    decreases show.len(),
{
    if show.len() == 0 {
        Seq::empty()
    } else {
        let front = plan_fields(show.drop_last(), q, columns);
        match plan_field(show.last(), q, columns) {
            Some(f) => front.push(f),
            None => front,
        }
    }
}

/// `true` when the groups can be ordered by the column: it shows a part of
/// the key or a reducer, and its label is the one the sort names.
pub open spec fn sorts_by(f: FieldSpec, sort: SortSpec) -> bool {
    !(f is Symbol) && f.label() == sort.field
}

/// The column that the groups are ordered by: the last column of the
/// table whose label the sort names.
pub open spec fn plan_sort(fields: Seq<FieldSpec>, sort: SortSpec) -> Option<FieldSpec>
    decreases fields.len(),
{
    if fields.len() == 0 {
        None
    } else if sorts_by(fields.last(), sort) {
        Some(fields.last())
    } else {
        plan_sort(fields.drop_last(), sort)
    }
}

/// The first element of a sort, which is the one that counts.
pub open spec fn first_sort(sort: Option<Seq<SortSpec>>) -> Option<SortSpec> {
    match sort {
        Some(s) => if s.len() > 0 {
            Some(s[0])
        } else {
            None
        },
        None => None,
    }
}

/// A `RecordFormatter` as a plain value.
pub struct FormatterSpec {
    pub fields: Seq<FieldSpec>,
    pub sort: Option<(FieldSpec, QuerySortOrdering)>,
}

/// The formatter of a query: a column for each element of the projection
/// it is evaluated with, and the column to order groups by, if the query
/// names one that the table has.
pub open spec fn plan_formatter(q: QuerySpec, columns: Seq<ColumnSpec>) -> FormatterSpec {
    let fields = plan_fields(projection(q.computed_show), q, columns);
    FormatterSpec {
        fields,
        sort: match first_sort(q.sort) {
            Some(s) => match plan_sort(fields, s) {
                Some(f) => Some((f, s.order)),
                None => None,
            },
            None => None,
        },
    }
}

/// The part of the group key that shows the column `symbol`, if the query
/// groups by it.
pub fn get_group_idx(symbol: &[u8], query: &RipLogQuery) -> (r: Option<usize>)
    ensures
        r == group_idx(query@.grouping, symbol@),
{
    match &query.grouping {
        Some(grouping) => {
            let ghost names = grouping@;
            let mut idx: usize = 0;
            while idx < grouping.groupings.len()
                invariant
                    idx <= grouping.groupings@.len(),
                    names == grouping@,
                    query@.grouping == Some(names),
                    forall|j: int| 0 <= j < idx ==> #[trigger] names[j] != symbol@,
                decreases grouping.groupings@.len() - idx,
            {
                if bytes_eq(grouping.groupings[idx].as_slice(), symbol) {
                    proof {
                        assert(names[idx as int] == grouping.groupings@[idx as int]@);
                        lemma_name_index_unique(names, symbol@, idx as int);

                    }
                    return Some(idx);
                }
                idx += 1;
            }
            proof {
                lemma_name_index_unique(names, symbol@, idx as int);
            }
            None
        },
        None => None,
    }
}

/// Unfolds `reduce_index` and `reducer_count` at the end of a projection.
proof fn lemma_reduce_index_step(show: Seq<ShowSpec>, kind: QueryReducer, symbol: Seq<u8>, k: int)
    requires
        0 <= k < show.len(),
        reduce_index(show.subrange(0, k), kind, symbol) == reducer_count(show.subrange(0, k)),
    ensures
        reducer_count(show.subrange(0, k + 1)) == reducer_count(show.subrange(0, k)) + (if show[k] is Reducer {
            1int
        } else {
            0int
        }),
        reduce_index(show.subrange(0, k + 1), kind, symbol) == reducer_count(show.subrange(0, k)) + (
        match show[k] {
            ShowSpec::Reducer(r, s) => if r == kind && s == symbol {
                0int
            } else {
                1int
            },
            _ => 0int,
        }),
    decreases k,
{
    let a = show.subrange(0, k);
    let b = show.subrange(0, k + 1);
    if k == 0 {
        assert(b.drop_first() =~= Seq::<ShowSpec>::empty());
        assert(a =~= Seq::<ShowSpec>::empty());
        assert(b[0] == show[0]);
    } else {
        let rest = show.drop_first();
        assert(a.drop_first() =~= rest.subrange(0, k - 1));
        assert(b.drop_first() =~= rest.subrange(0, k));
        assert(a[0] == show[0] && b[0] == show[0]);
        assert(rest[k - 1] == show[k]);
        lemma_reduce_index_bounds(a.drop_first(), kind, symbol);
        lemma_reduce_index_step(rest, kind, symbol, k - 1);
    }
}

/// `reduce_index` counts no more reducers than there are.
pub proof fn lemma_reduce_index_bounds(show: Seq<ShowSpec>, kind: QueryReducer, symbol: Seq<u8>)
    ensures
        0 <= reduce_index(show, kind, symbol) <= reducer_count(show) <= show.len(),
    decreases show.len(),
{
    if show.len() > 0 {
        lemma_reduce_index_bounds(show.drop_first(), kind, symbol);
    }
}

/// Once the reducer is found, a longer projection finds it at the same
/// place.
proof fn lemma_reduce_index_found(show: Seq<ShowSpec>, kind: QueryReducer, symbol: Seq<u8>, k: int)
    requires
        0 <= k <= show.len(),
        reduce_index(show.subrange(0, k), kind, symbol) < reducer_count(show.subrange(0, k)),
    ensures
        reduce_index(show, kind, symbol) == reduce_index(show.subrange(0, k), kind, symbol),
        reduce_index(show, kind, symbol) < reducer_count(show),
    decreases show.len(),
{
    let a = show.subrange(0, k);
    if k > 0 {
        let rest = show.drop_first();
        assert(a.drop_first() =~= rest.subrange(0, k - 1));
        assert(a[0] == show[0]);
        lemma_reduce_index_bounds(rest, kind, symbol);
        match show[0] {
            ShowSpec::Reducer(r, s) => {
                if !(r == kind && s == symbol) {
                    lemma_reduce_index_found(rest, kind, symbol, k - 1);
                }
            },
            _ => {
                lemma_reduce_index_found(rest, kind, symbol, k - 1);
            },
        }
    }
}

/// The reducer that reports `reducer(symbol)`, if the projection that the
/// query is evaluated with holds one.
pub fn get_reduce_idx(symbol: &[u8], reducer: QueryReducer, query: &RipLogQuery) -> (r: Option<usize>)
    ensures
        r == reduce_idx(projection(query@.computed_show), reducer, symbol@),
{
    match &query.computed_show {
        Some(show) => {
            let ghost view = show@;
            let mut idx: usize = 0;
            let mut i: usize = 0;
            assert(view.subrange(0, 0) =~= Seq::<ShowSpec>::empty());
            while i < show.elements.len()
                invariant
                    i <= show.elements@.len(),
                    view == show@,
                    query@.computed_show == Some(view),
                    idx <= i,
                    idx == reducer_count(view.subrange(0, i as int)),
                    idx == reduce_index(view.subrange(0, i as int), reducer, symbol@),
                decreases show.elements@.len() - i,
            {
                proof {
                    assert(view[i as int] == show.elements@[i as int]@);
                    lemma_reduce_index_step(view, reducer, symbol@, i as int);
                }
                match &show.elements[i] {
                    QueryShowElement::Reducer(curr_reducer, curr_symbol) => {
                        if *curr_reducer == reducer && bytes_eq(curr_symbol.as_slice(), symbol) {
                            proof {
                                lemma_reduce_index_found(view, reducer, symbol@, i + 1);
                            }
                            return Some(idx);
                        }
                        idx += 1;
                    },
                    _ => {},
                }
                i += 1;
            }
            assert(view.subrange(0, i as int) =~= view);
            None
        },
        None => None,
    }
}

/// The cells of a row, each followed by a bar: the column at `i` shows
/// `texts[i]` at the width it has once it has grown to fit it.
pub open spec fn row_cells(fields: Seq<FieldSpec>, texts: Seq<Seq<u8>>) -> Seq<u8>
    decreases fields.len(),
{
    if fields.len() == 0 {
        Seq::empty()
    } else {
        row_cells(fields.drop_last(), texts.drop_last()) + cell(
            texts.last(),
            fields.last().grown(texts.last()).size() as nat,
        ) + seq![BAR]
    }
}

/// A row of the table: a bar, then the cells.
pub open spec fn row_line(fields: Seq<FieldSpec>, texts: Seq<Seq<u8>>) -> Seq<u8> {
    seq![BAR] + row_cells(fields, texts)
}

/// The columns after each has shown its text.
pub open spec fn grown_fields(fields: Seq<FieldSpec>, texts: Seq<Seq<u8>>) -> Seq<FieldSpec> {
    Seq::new(fields.len(), |i: int| fields[i].grown(texts[i]))
}

/// What each column shows in a row made from `source`.
pub open spec fn texts_of(fields: Seq<FieldSpec>, source: RowSource) -> Seq<Seq<u8>> {
    fields.map_values(|f: FieldSpec| field_text(f, source))
}

/// The label of each column.
pub open spec fn labels_of(fields: Seq<FieldSpec>) -> Seq<Seq<u8>> {
    fields.map_values(|f: FieldSpec| f.label())
}

/// The width of a row between its first and its last bar: each cell with
/// its two spaces, and a bar between neighbours.
pub open spec fn inner_width(fields: Seq<FieldSpec>) -> nat
    decreases fields.len(),
{
    if fields.len() == 0 {
        0
    } else if fields.len() == 1 {
        (fields.last().size() + 2) as nat
    } else {
        (inner_width(fields.drop_last()) + 1 + fields.last().size() + 2) as nat
    }
}

/// A horizontal rule as wide as a row is between its outer bars.
pub open spec fn rule(fields: Seq<FieldSpec>) -> Seq<u8> {
    repeat(HYPHEN, inner_width(fields))
}

/// The line that closes the table.
pub open spec fn closing_line(fields: Seq<FieldSpec>) -> Seq<u8> {
    seq![CORNER] + rule(fields) + seq![CORNER]
}

/// The three lines of the header: a rule, the labels, a rule.  The rules
/// are as wide as the columns are once they have grown to fit the labels.
pub open spec fn header_lines(fields: Seq<FieldSpec>) -> Seq<Seq<u8>> {
    let grown = grown_fields(fields, labels_of(fields));
    seq![
        seq![CORNER] + rule(grown) + seq![CORNER],
        row_line(fields, labels_of(fields)),
        seq![BAR] + rule(grown) + seq![BAR],
    ]
}

/// The columns of the table, and the column to order groups by.
#[derive(Debug, Clone)]
pub struct RecordFormatter {
    pub fields: Vec<OutputField>,
    pub sort: Option<(OutputField, QuerySortOrdering)>,
}

/// The views of a vector of columns.
pub open spec fn fields_of(v: Seq<OutputField>) -> Seq<FieldSpec> {
    v.map_values(|f: OutputField| f@)
}

impl View for RecordFormatter {
    type V = FormatterSpec;

    open spec fn view(&self) -> FormatterSpec {
        FormatterSpec {
            fields: fields_of(self.fields@),
            sort: match self.sort {
                Some((f, order)) => Some((f@, order)),
                None => None,
            },
        }
    }
}

/// `true` when the record has decoded its date, if a column shows it.
pub open spec fn fields_ready(fields: Seq<FieldSpec>, columns: Seq<ColumnSpec>, record: RecordSpec) -> bool {
    forall|i: int| 0 <= i < fields.len() ==> field_ready(#[trigger] fields[i], columns, record)
}

/// What a column shows for a record does not change while the record
/// decodes more.
pub proof fn lemma_field_text_stable(
    f: FieldSpec,
    columns: Seq<ColumnSpec>,
    a: RecordSpec,
    b: RecordSpec,
)
    requires
        a.extended_by(b),
        field_ready(f, columns, a),
    ensures
        field_ready(f, columns, b),
        field_text(f, RowSource::Record(columns, a)) == field_text(f, RowSource::Record(columns, b)),
{
    match f {
        FieldSpec::Symbol { symbol, .. } => {
            lemma_symbol_stable(columns, symbol, a, b);
        },
        _ => {},
    }
}

impl RecordFormatter {
    /// The formatter of `query`, whose projection has been worked out.
    pub fn new(query: &RipLogQuery, definition: &TableDefinition) -> (r: RecordFormatter)
        requires
            query@.computed_show is Some,
        ensures
            r@ == plan_formatter(query@, definition@),
    {
        let mut fields: Vec<OutputField> = Vec::new();
        let mut sort: Option<(OutputField, QuerySortOrdering)> = None;
        let sort_value: Option<&QuerySortElement> = match &query.sort {
            Some(s) => if s.sortings.len() > 0 {
                Some(&s.sortings[0])
            } else {
                None
            },
            None => None,
        };
        let show = match &query.computed_show {
            Some(s) => s,
            None => { return RecordFormatter { fields, sort } },
        };
        let ghost view = show@;
        let ghost wanted = first_sort(query@.sort);
        assert(wanted == match sort_value {
            Some(s) => Some(s@),
            None => None,
        });
        let mut i: usize = 0;
        assert(view.subrange(0, 0) =~= Seq::<ShowSpec>::empty());
        assert(fields_of(fields@) =~= Seq::<FieldSpec>::empty());
        while i < show.elements.len()
            invariant
                i <= show.elements@.len(),
                view == show@,
                query@.computed_show == Some(view),
                wanted == first_sort(query@.sort),
                wanted == match sort_value {
                    Some(s) => Some(s@),
                    None => None,
                },
                fields_of(fields@) == plan_fields(view.subrange(0, i as int), query@, definition@),
                match wanted {
                    Some(s) => match plan_sort(fields_of(fields@), s) {
                        Some(f) => sort matches Some((g, order)) && g@ == f && order == s.order,
                        None => sort is None,
                    },
                    None => sort is None,
                },
            decreases show.elements@.len() - i,
        {
            proof {
                let next = view.subrange(0, i + 1);
                assert(next.drop_last() =~= view.subrange(0, i as int));
                assert(next.last() == view[i as int]);
                assert(view[i as int] == show.elements@[i as int]@);
            }
            let ghost before = fields_of(fields@);
            let made: Option<OutputField> = match &show.elements[i] {
                QueryShowElement::Symbol(symbol) => {
                    let group_idx = get_group_idx(symbol.as_slice(), query);
                    let size = match definition.get(symbol.as_slice()) {
                        Some(d) => d.get_size(),
                        None => REDUCER_WIDTH,
                    };
                    match group_idx {
                        Some(idx) => Some(
                            OutputField::Group(
                                GroupOutputField { symbol: copy_bytes(symbol.as_slice()), idx, size },
                            ),
                        ),
                        None => Some(
                            OutputField::Symbol(
                                SymbolOutputField { symbol: copy_bytes(symbol.as_slice()), size },
                            ),
                        ),
                    }
                },
                QueryShowElement::Reducer(reducer, symbol) => {
                    match get_reduce_idx(symbol.as_slice(), *reducer, query) {
                        Some(idx) => Some(
                            OutputField::Reduced(
                                ReducedOutputField {
                                    reducer: *reducer,
                                    symbol: copy_bytes(symbol.as_slice()),
                                    idx,
                                    size: REDUCER_WIDTH,
                                },
                            ),
                        ),
                        None => None,
                    }
                },
                QueryShowElement::All => None,
            };
            assert(match made {
                Some(f) => plan_field(view[i as int], query@, definition@) == Some(f@),
                None => plan_field(view[i as int], query@, definition@) is None,
            });
            match made {
                Some(field) => {
                    match sort_value {
                        Some(s) => {
                            let sortable = match &field {
                                OutputField::Symbol(_) => false,
                                _ => bytes_eq(s.field.as_slice(), field.name().as_slice()),
                            };
                            if sortable {
                                sort = Some((copy_field(&field), s.order));
                            }
                        },
                        None => {},
                    }
                    proof {
                        let after = before.push(field@);
                        assert(after.drop_last() =~= before);
                        assert(after.last() == field@);
                    }
                    fields.push(field);
                    assert(fields_of(fields@) =~= before.push(field@));
                },
                None => {},
            }
            i += 1;
        }
        assert(view.subrange(0, i as int) =~= view);
        RecordFormatter { fields, sort }
    }

    /// `true` when the groups are to be ordered.
    pub fn sortable(&self) -> (r: bool)
        ensures
            r == self@.sort is Some,
    {
        self.sort.is_some()
    }

    /// What each column shows for `record`.
    pub fn record_texts(&self, tdef: &TableDefinition, record: &mut BinaryNginxLogRecord) -> (texts:
        Vec<Vec<u8>>)
        requires
            old(record).wf(),
        ensures
            final(record).wf(),
            old(record)@.extended_by(final(record)@),
            fields_ready(self@.fields, tdef@, final(record)@),
            texts@.len() == self@.fields.len(),
            views_of(texts@) == texts_of(self@.fields, RowSource::Record(tdef@, final(record)@)),
    {
        let ghost fields = self@.fields;
        let mut texts: Vec<Vec<u8>> = Vec::new();
        let mut i: usize = 0;
        while i < self.fields.len()
            invariant
                i <= self.fields@.len(),
                fields == self@.fields,
                record.wf(),
                old(record)@.extended_by(record@),
                texts@.len() == i,
                forall|j: int| 0 <= j < i ==> field_ready(#[trigger] fields[j], tdef@, record@),
                forall|j: int|
                    0 <= j < i ==> (#[trigger] texts@[j])@ == field_text(
                        fields[j],
                        RowSource::Record(tdef@, record@),
                    ),
            decreases self.fields@.len() - i,
        {
            let ghost before = record@;
            let text = self.fields[i].record_text(tdef, record);
            proof {
                assert(fields[i as int] == self.fields@[i as int]@);
                assert forall|j: int| 0 <= j < i implies field_ready(
                    #[trigger] fields[j],
                    tdef@,
                    record@,
                ) && texts@[j]@ == field_text(fields[j], RowSource::Record(tdef@, record@)) by {
                    lemma_field_text_stable(fields[j], tdef@, before, record@);
                }
            }
            texts.push(text);
            i += 1;
        }
        assert(views_of(texts@) =~= texts_of(fields, RowSource::Record(tdef@, record@)));
        texts
    }

    /// What each column shows for a group, or for the whole stream where
    /// there is no key.
    pub fn group_texts(&self, group_key: Option<&Vec<Vec<u8>>>, reducer: &Reducer) -> (texts: Vec<
        Vec<u8>,
    >)
        ensures
            texts@.len() == self@.fields.len(),
            views_of(texts@) == texts_of(self@.fields, group_source(group_key, reducer)),
    {
        let ghost fields = self@.fields;
        let mut texts: Vec<Vec<u8>> = Vec::new();
        let mut i: usize = 0;
        while i < self.fields.len()
            invariant
                i <= self.fields@.len(),
                fields == self@.fields,
                texts@.len() == i,
                forall|j: int|
                    0 <= j < i ==> (#[trigger] texts@[j])@ == field_text(
                        fields[j],
                        group_source(group_key, reducer),
                    ),
            decreases self.fields@.len() - i,
        {
            let text = self.fields[i].group_text(group_key, reducer);
            assert(fields[i as int] == self.fields@[i as int]@);
            texts.push(text);
            i += 1;
        }
        assert(views_of(texts@) =~= texts_of(fields, group_source(group_key, reducer)));
        texts
    }

    /// The row that shows `texts`, one for each column.  Each column grows
    /// to fit its text.
    pub fn format_texts(&mut self, texts: &Vec<Vec<u8>>) -> (row: Vec<u8>)
        requires
            texts@.len() == old(self)@.fields.len(),
        ensures
            row@ == row_line(old(self)@.fields, views_of(texts@)),
            final(self)@.fields == grown_fields(old(self)@.fields, views_of(texts@)),
            final(self)@.sort == old(self)@.sort,
    {
        let ghost fields = self@.fields;
        let ghost shown = views_of(texts@);
        let n = self.fields.len();
        let mut row: Vec<u8> = Vec::new();
        row.push(BAR);
        let mut i: usize = 0;
        assert(fields.subrange(0, 0) =~= Seq::<FieldSpec>::empty());
        assert(row@ =~= seq![BAR] + row_cells(fields.subrange(0, 0), shown.subrange(0, 0)));
        while i < n
            invariant
                i <= n,
                n == fields.len(),
                n == self.fields@.len(),
                n == texts@.len(),
                fields == old(self)@.fields,
                shown == views_of(texts@),
                self@.sort == old(self)@.sort,
                row@ == seq![BAR] + row_cells(fields.subrange(0, i as int), shown.subrange(0, i as int)),
                forall|j: int| 0 <= j < i ==> self@.fields[j] == (#[trigger] fields[j]).grown(shown[j]),
                forall|j: int| i <= j < n ==> self@.fields[j] == #[trigger] fields[j],
            decreases n - i,
        {
            let ghost before = self@.fields;
            let ghost row_before = row@;
            assert(before[i as int] == fields[i as int]);
            let cell_bytes = self.fields[i].format_field(texts[i].as_slice());
            assert(forall|j: int| 0 <= j < n && j != i ==> self@.fields[j] == #[trigger] before[j]);
            assert(self@.fields[i as int] == fields[i as int].grown(shown[i as int]));
            push_bytes(&mut row, cell_bytes.as_slice());
            row.push(BAR);
            proof {
                let f = fields.subrange(0, i + 1);
                let t = shown.subrange(0, i + 1);
                assert(f.drop_last() =~= fields.subrange(0, i as int));
                assert(t.drop_last() =~= shown.subrange(0, i as int));
                assert(f.last() == fields[i as int]);
                assert(t.last() == shown[i as int]);
                assert(row@ =~= seq![BAR] + row_cells(f, t));
            }
            i += 1;
        }
        assert(fields.subrange(0, n as int) =~= fields);
        assert(shown.subrange(0, n as int) =~= shown);
        assert(self@.fields =~= grown_fields(fields, shown));
        row
    }

    /// The row of a record.  Each column grows to fit what it shows.
    pub fn format_record(&mut self, tdef: &TableDefinition, record: &mut BinaryNginxLogRecord) -> (row:
        Vec<u8>)
        requires
            old(record).wf(),
        ensures
            final(record).wf(),
            old(record)@.extended_by(final(record)@),
            fields_ready(old(self)@.fields, tdef@, final(record)@),
            row@ == row_line(
                old(self)@.fields,
                texts_of(old(self)@.fields, RowSource::Record(tdef@, final(record)@)),
            ),
            final(self)@.fields == grown_fields(
                old(self)@.fields,
                texts_of(old(self)@.fields, RowSource::Record(tdef@, final(record)@)),
            ),
            final(self)@.sort == old(self)@.sort,
    {
        let texts = self.record_texts(tdef, record);
        self.format_texts(&texts)
    }

    /// The row of a group.  Each column grows to fit what it shows.
    pub fn format_grouped_record(&mut self, key: &Vec<Vec<u8>>, reducer: &Reducer) -> (row: Vec<u8>)
        ensures
            row@ == row_line(
                old(self)@.fields,
                texts_of(old(self)@.fields, RowSource::Group(views_of(key@), results_of(reducer@))),
            ),
            final(self)@.fields == grown_fields(
                old(self)@.fields,
                texts_of(old(self)@.fields, RowSource::Group(views_of(key@), results_of(reducer@))),
            ),
            final(self)@.sort == old(self)@.sort,
    {
        let texts = self.group_texts(Some(key), reducer);
        self.format_texts(&texts)
    }

    /// The row of the whole stream.  Each column grows to fit what it
    /// shows.
    pub fn format_reduced_record(&mut self, reducer: &Reducer) -> (row: Vec<u8>)
        ensures
            row@ == row_line(
                old(self)@.fields,
                texts_of(old(self)@.fields, RowSource::Total(results_of(reducer@))),
            ),
            final(self)@.fields == grown_fields(
                old(self)@.fields,
                texts_of(old(self)@.fields, RowSource::Total(results_of(reducer@))),
            ),
            final(self)@.sort == old(self)@.sort,
    {
        let texts = self.group_texts(None, reducer);
        self.format_texts(&texts)
    }

    /// The rule for the columns at their present widths.
    fn rule_bytes(&self) -> (r: Vec<u8>)
        ensures
            r@ == rule(self@.fields),
    {
        let ghost fields = self@.fields;
        let n = self.fields.len();
        let mut r: Vec<u8> = Vec::new();
        let mut i: usize = 0;
        assert(fields.subrange(0, 0) =~= Seq::<FieldSpec>::empty());
        assert(r@ =~= rule(fields.subrange(0, 0)));
        while i < n
            invariant
                i <= n,
                n == self.fields@.len(),
                fields == self@.fields,
                r@ == rule(fields.subrange(0, i as int)),
            decreases n - i,
        {
            proof {
                let f = fields.subrange(0, i + 1);
                assert(f.drop_last() =~= fields.subrange(0, i as int));
                assert(f.last() == fields[i as int]);
                assert(fields[i as int] == self.fields@[i as int]@);
            }
            let ghost before = r@;
            if i > 0 {
                r.push(HYPHEN);
            }
            push_repeat(&mut r, HYPHEN, self.fields[i].size());
            r.push(HYPHEN);
            r.push(HYPHEN);
            i += 1;
            assert(r@ =~= rule(fields.subrange(0, i as int)));
        }
        assert(fields.subrange(0, n as int) =~= fields);
        r
    }

    /// The three lines of the header.  Each column grows to fit its label.
    pub fn format_header_row(&mut self) -> (lines: Vec<Vec<u8>>)
        ensures
            views_of(lines@) == header_lines(old(self)@.fields),
            final(self)@.fields == grown_fields(old(self)@.fields, labels_of(old(self)@.fields)),
            final(self)@.sort == old(self)@.sort,
    {
        let ghost fields = self@.fields;
        let mut labels: Vec<Vec<u8>> = Vec::new();
        let mut i: usize = 0;
        while i < self.fields.len()
            invariant
                i <= self.fields@.len(),
                fields == self@.fields,
                labels@.len() == i,
                forall|j: int| 0 <= j < i ==> (#[trigger] labels@[j])@ == fields[j].label(),
            decreases self.fields@.len() - i,
        {
            let label = self.fields[i].name();
            assert(fields[i as int] == self.fields@[i as int]@);
            labels.push(label);
            i += 1;
        }
        assert(views_of(labels@) =~= labels_of(fields));
        let header_row = self.format_texts(&labels);
        let pad = self.rule_bytes();
        let mut top: Vec<u8> = Vec::new();
        top.push(CORNER);
        push_bytes(&mut top, pad.as_slice());
        top.push(CORNER);
        let mut bottom: Vec<u8> = Vec::new();
        bottom.push(BAR);
        push_bytes(&mut bottom, pad.as_slice());
        bottom.push(BAR);
        let mut lines: Vec<Vec<u8>> = Vec::new();
        lines.push(top);
        lines.push(header_row);
        lines.push(bottom);
        proof {
            let expected = header_lines(fields);
            assert(views_of(lines@)[0] == expected[0]);
            assert(views_of(lines@)[1] == expected[1]);
            assert(views_of(lines@)[2] == expected[2]);
            assert(views_of(lines@) =~= expected);
        }
        lines
    }

    /// The line that closes the table, for the columns at their present
    /// widths.
    pub fn format_closing_row(&self) -> (line: Vec<u8>)
        ensures
            line@ == closing_line(self@.fields),
    {
        let pad = self.rule_bytes();
        let mut line: Vec<u8> = Vec::new();
        line.push(CORNER);
        push_bytes(&mut line, pad.as_slice());
        line.push(CORNER);
        line
    }
}

/// An equal column.
pub fn copy_field(field: &OutputField) -> (r: OutputField)
    ensures
        r@ == field@,
{
    match field {
        OutputField::Symbol(f) => OutputField::Symbol(
            SymbolOutputField { symbol: copy_bytes(f.symbol.as_slice()), size: f.size },
        ),
        OutputField::Group(f) => OutputField::Group(
            GroupOutputField { symbol: copy_bytes(f.symbol.as_slice()), idx: f.idx, size: f.size },
        ),
        OutputField::Reduced(f) => OutputField::Reduced(
            ReducedOutputField {
                reducer: f.reducer,
                symbol: copy_bytes(f.symbol.as_slice()),
                idx: f.idx,
                size: f.size,
            },
        ),
    }
}

} // verus!
