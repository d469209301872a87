//! Aggregation: the four reducers, the vector of them that a query keeps
//! for each group, and the key that tells the groups apart.
use vstd::prelude::*;
use crate::text::views_of;
use vstd::seq_lib::commutative_foldl;
use vstd::seq_lib::lemma_fold_left_permutation;
use crate::nginx::BinaryNginxLogRecord;
use crate::nginx::RecordSpec;
use crate::parser::QueryReducer;
use crate::parser::QueryShowElement;
use crate::parser::RipLogQuery;
use crate::parser::ShowSpec;
use crate::table::get_symbol_as_integer;
use crate::table::get_symbol_as_string;
use crate::table::get_symbol_bytes;
use crate::table::lemma_symbol_stable;
use crate::table::symbol_bytes;
use crate::table::symbol_integer;
use crate::table::symbol_ready;
use crate::table::symbol_shown;
use crate::table::ColumnSpec;
use crate::table::TableDefinition;
use crate::text::ascii;
use crate::text::ascii_bytes;
use crate::text::copy_bytes;

verus! {

pub const STAR: u8 = 0x2a;

/// The state of one reducer as a plain value.  A reducer uses the
/// components that its kind needs and leaves the others at zero.
pub struct ReducerSpec {
    pub kind: QueryReducer,
    pub symbol: Seq<u8>,
    pub count: u64,
    pub sum: u64,
    pub max: u64,
}

/// `a + b`, or the largest number where the sum does not fit.
pub open spec fn sat_add(a: u64, b: u64) -> u64 {
    if a + b > u64::MAX {
        u64::MAX
    } else {
        (a + b) as u64
    }
}

/// `true` when `count(symbol)` counts the record: always for `*`,
/// otherwise when the column has bytes.
pub open spec fn counts(symbol: Seq<u8>, columns: Seq<ColumnSpec>, record: RecordSpec) -> bool {
    symbol == ascii("*") || symbol_bytes(columns, symbol, record) is Some
}

/// A reducer that has seen no record.
pub open spec fn fresh_reducer(kind: QueryReducer, symbol: Seq<u8>) -> ReducerSpec {
    ReducerSpec { kind, symbol, count: 0, sum: 0, max: 0 }
}

/// The state of a reducer after it has seen one more record.
pub open spec fn apply_reducer(r: ReducerSpec, columns: Seq<ColumnSpec>, record: RecordSpec) -> ReducerSpec {
    let value = symbol_integer(columns, r.symbol, record);
    match r.kind {
        QueryReducer::Count => if counts(r.symbol, columns, record) {
            ReducerSpec { count: sat_add(r.count, 1), ..r }
        } else {
            r
        },
        QueryReducer::Sum => match value {
            Some(v) => ReducerSpec { sum: sat_add(r.sum, v), ..r },
            None => r,
        },
        QueryReducer::Max => match value {
            Some(v) => if v > r.max {
                ReducerSpec { max: v, ..r }
            } else {
                r
            },
            None => r,
        },
        QueryReducer::Avg => match value {
            Some(v) => ReducerSpec { sum: sat_add(r.sum, v), count: sat_add(r.count, 1), ..r },
            None => r,
        },
    }
}

/// What a reducer reports: the count, the sum, the maximum, or the sum
/// divided by the count, rounded down, and zero where it has counted
/// nothing.
pub open spec fn reducer_result(r: ReducerSpec) -> u64 {
    match r.kind {
        QueryReducer::Count => r.count,
        QueryReducer::Sum => r.sum,
        QueryReducer::Max => r.max,
        QueryReducer::Avg => if r.count > 0 {
            r.sum / r.count
        } else {
            0
        },
    }
}

/// Every reducer of a vector after one more record.
pub open spec fn apply_all(rs: Seq<ReducerSpec>, columns: Seq<ColumnSpec>, record: RecordSpec) -> Seq<
    ReducerSpec,
> {
    rs.map_values(|r: ReducerSpec| apply_reducer(r, columns, record))
}

/// What every reducer of a vector reports.
pub open spec fn results_of(rs: Seq<ReducerSpec>) -> Seq<u64> {
    rs.map_values(|r: ReducerSpec| reducer_result(r))
}

/// A fresh reducer for each reducer of a projection, in order.
pub open spec fn fresh_reducers(show: Seq<ShowSpec>) -> Seq<ReducerSpec>
    decreases show.len(),
{
    if show.len() == 0 {
        Seq::empty()
    } else {
        let front = fresh_reducers(show.drop_last());
        match show.last() {
            ShowSpec::Reducer(kind, symbol) => front.push(fresh_reducer(kind, symbol)),
            _ => front,
        }
    }
}

/// `a + b`, or the largest number where the sum does not fit.
pub fn add_saturating(a: u64, b: u64) -> (r: u64)
    ensures
        r == sat_add(a, b),
{
    if a > u64::MAX - b {
        u64::MAX
    } else {
        a + b
    }
}

#[derive(Debug, Clone)]
pub struct CountReducer {
    pub symbol: Vec<u8>,
    pub count: u64,
}

impl View for CountReducer {
    type V = ReducerSpec;

    open spec fn view(&self) -> ReducerSpec {
        ReducerSpec { kind: QueryReducer::Count, symbol: self.symbol@, count: self.count, sum: 0, max: 0 }
    }
}

impl CountReducer {
    pub fn apply_record(&mut self, tdef: &TableDefinition, record: &BinaryNginxLogRecord)
        ensures
            final(self)@ == apply_reducer(old(self)@, tdef@, record@),
    {
        proof {
            reveal_strlit("*");
        }
        if self.symbol.len() == 1 && self.symbol[0] == STAR {
            assert(self.symbol@ =~= ascii("*"));
            self.count = add_saturating(self.count, 1);
        } else {
            assert(self.symbol@ != ascii("*")) by {
                if self.symbol@.len() == 1 {
                    assert(ascii("*")[0] == STAR);
                }
            }
            let value = get_symbol_bytes(tdef, record, self.symbol.as_slice());
            if value.is_some() {
                self.count = add_saturating(self.count, 1);
            }
        }
    }

    pub fn result(&self) -> (r: u64)
        ensures
            r == reducer_result(self@),
    {
        self.count
    }

    pub fn get_symbol(&self) -> (s: &Vec<u8>)
        ensures
            s@ == self@.symbol,
    {
        &self.symbol
    }
}

#[derive(Debug, Clone)]
pub struct SumReducer {
    pub symbol: Vec<u8>,
    pub sum: u64,
}

impl View for SumReducer {
    type V = ReducerSpec;

    open spec fn view(&self) -> ReducerSpec {
        ReducerSpec { kind: QueryReducer::Sum, symbol: self.symbol@, count: 0, sum: self.sum, max: 0 }
    }
}

impl SumReducer {
    pub fn apply_record(&mut self, tdef: &TableDefinition, record: &mut BinaryNginxLogRecord)
        requires
            old(record).wf(),
        ensures
            final(record).wf(),
            final(record)@ == old(record)@,
            final(self)@ == apply_reducer(old(self)@, tdef@, old(record)@),
    {
        let value = get_symbol_as_integer(tdef, record, self.symbol.as_slice());
        match value {
            Some(v) => {
                self.sum = add_saturating(self.sum, v);
            },
            None => {},
        }
    }

    pub fn result(&self) -> (r: u64)
        ensures
            r == reducer_result(self@),
    {
        self.sum
    }

    pub fn get_symbol(&self) -> (s: &Vec<u8>)
        ensures
            s@ == self@.symbol,
    {
        &self.symbol
    }
}

#[derive(Debug, Clone)]
pub struct AvgReducer {
    pub symbol: Vec<u8>,
    pub count: u64,
    pub sum: u64,
}

impl View for AvgReducer {
    type V = ReducerSpec;

    open spec fn view(&self) -> ReducerSpec {
        ReducerSpec {
            kind: QueryReducer::Avg,
            symbol: self.symbol@,
            count: self.count,
            sum: self.sum,
            max: 0,
        }
    }
}

impl AvgReducer {
    pub fn apply_record(&mut self, tdef: &TableDefinition, record: &mut BinaryNginxLogRecord)
        requires
            old(record).wf(),
        ensures
            final(record).wf(),
            final(record)@ == old(record)@,
            final(self)@ == apply_reducer(old(self)@, tdef@, old(record)@),
    {
        let value = get_symbol_as_integer(tdef, record, self.symbol.as_slice());
        match value {
            Some(v) => {
                self.sum = add_saturating(self.sum, v);
                self.count = add_saturating(self.count, 1);
            },
            None => {},
        }
    }

    pub fn result(&self) -> (r: u64)
        ensures
            r == reducer_result(self@),
    {
        if self.count > 0 {
            self.sum / self.count
        } else {
            0
        }
    }

    pub fn get_symbol(&self) -> (s: &Vec<u8>)
        ensures
            s@ == self@.symbol,
    {
        &self.symbol
    }
}

#[derive(Debug, Clone)]
pub struct MaxReducer {
    pub symbol: Vec<u8>,
    pub max: u64,
}

impl View for MaxReducer {
    type V = ReducerSpec;

    open spec fn view(&self) -> ReducerSpec {
        ReducerSpec { kind: QueryReducer::Max, symbol: self.symbol@, count: 0, sum: 0, max: self.max }
    }
}

impl MaxReducer {
    pub fn apply_record(&mut self, tdef: &TableDefinition, record: &mut BinaryNginxLogRecord)
        requires
            old(record).wf(),
        ensures
            final(record).wf(),
            final(record)@ == old(record)@,
            final(self)@ == apply_reducer(old(self)@, tdef@, old(record)@),
    {
        let value = get_symbol_as_integer(tdef, record, self.symbol.as_slice());
        match value {
            Some(v) => {
                if v > self.max {
                    self.max = v;
                }
            },
            None => {},
        }
    }

    pub fn result(&self) -> (r: u64)
        ensures
            r == reducer_result(self@),
    {
        self.max
    }

    pub fn get_symbol(&self) -> (s: &Vec<u8>)
        ensures
            s@ == self@.symbol,
    {
        &self.symbol
    }
}

/// One reducer of any of the four kinds.
#[derive(Debug, Clone)]
pub enum FieldReducer {
    Count(CountReducer),
    Sum(SumReducer),
    Max(MaxReducer),
    Avg(AvgReducer),
}

impl View for FieldReducer {
    type V = ReducerSpec;

    open spec fn view(&self) -> ReducerSpec {
        match self {
            FieldReducer::Count(r) => r@,
            FieldReducer::Sum(r) => r@,
            FieldReducer::Max(r) => r@,
            FieldReducer::Avg(r) => r@,
        }
    }
}

impl FieldReducer {
    /// A reducer of the given kind that has seen no record.
    pub fn new(kind: QueryReducer, symbol: Vec<u8>) -> (r: FieldReducer)
        ensures
            r@ == fresh_reducer(kind, symbol@),
    {
        match kind {
            QueryReducer::Count => FieldReducer::Count(CountReducer { symbol, count: 0 }),
            QueryReducer::Sum => FieldReducer::Sum(SumReducer { symbol, sum: 0 }),
            QueryReducer::Max => FieldReducer::Max(MaxReducer { symbol, max: 0 }),
            QueryReducer::Avg => FieldReducer::Avg(AvgReducer { symbol, count: 0, sum: 0 }),
        }
    }

    pub fn apply_record(&mut self, tdef: &TableDefinition, record: &mut BinaryNginxLogRecord)
        requires
            old(record).wf(),
        ensures
            final(record).wf(),
            final(record)@ == old(record)@,
            final(self)@ == apply_reducer(old(self)@, tdef@, old(record)@),
    {
        match self {
            FieldReducer::Count(r) => r.apply_record(tdef, record),
            FieldReducer::Sum(r) => r.apply_record(tdef, record),
            FieldReducer::Max(r) => r.apply_record(tdef, record),
            FieldReducer::Avg(r) => r.apply_record(tdef, record),
        }
    }

    pub fn result(&self) -> (r: u64)
        ensures
            r == reducer_result(self@),
    {
        match self {
            FieldReducer::Count(r) => r.result(),
            FieldReducer::Sum(r) => r.result(),
            FieldReducer::Max(r) => r.result(),
            FieldReducer::Avg(r) => r.result(),
        }
    }

    pub fn get_symbol(&self) -> (s: &Vec<u8>)
        ensures
            s@ == self@.symbol,
    {
        match self {
            FieldReducer::Count(r) => r.get_symbol(),
            FieldReducer::Sum(r) => r.get_symbol(),
            FieldReducer::Max(r) => r.get_symbol(),
            FieldReducer::Avg(r) => r.get_symbol(),
        }
    }
}

/// The reducers of one group, or of the whole stream where nothing is
/// grouped: one for each reducer of the projection, in its order.
#[derive(Debug, Clone)]
pub struct Reducer {
    pub field_reducers: Vec<FieldReducer>,
}

impl View for Reducer {
    type V = Seq<ReducerSpec>;

    open spec fn view(&self) -> Seq<ReducerSpec> {
        self.field_reducers@.map_values(|r: FieldReducer| r@)
    }
}

impl Reducer {
    /// Lets every reducer see the record.
    pub fn apply_record(&mut self, tdef: &TableDefinition, record: &mut BinaryNginxLogRecord)
        requires
            old(record).wf(),
        ensures
            final(record).wf(),
            final(record)@ == old(record)@,
            final(self)@ == apply_all(old(self)@, tdef@, old(record)@),
    {
        let n = self.field_reducers.len();
        let mut i: usize = 0;
        while i < n
            invariant
                i <= n,
                n == self.field_reducers@.len(),
                n == old(self).field_reducers@.len(),
                record.wf(),
                record@ == old(record)@,
                forall|j: int|
                    0 <= j < i ==> self@[j] == apply_reducer(
                        #[trigger] old(self)@[j],
                        tdef@,
                        old(record)@,
                    ),
                forall|j: int| i <= j < n ==> self@[j] == #[trigger] old(self)@[j],
            decreases n - i,
        {
            let ghost before = self@;
            assert(before[i as int] == old(self)@[i as int]);
            self.field_reducers[i].apply_record(tdef, record);
            assert(forall|j: int| 0 <= j < n && j != i ==> self@[j] == #[trigger] before[j]);
            assert(self@[i as int] == apply_reducer(before[i as int], tdef@, old(record)@));
            i += 1;
        }
        assert(self@ =~= apply_all(old(self)@, tdef@, old(record)@));
    }

    /// What the reducer at `idx` reports, if there is one.
    pub fn result_at(&self, idx: usize) -> (r: Option<u64>)
        ensures
            r == (if idx < self@.len() {
                Some(reducer_result(self@[idx as int]))
            } else {
                None
            }),
    {
        if idx < self.field_reducers.len() {
            Some(self.field_reducers[idx].result())
        } else {
            None
        }
    }
}

/// The projection that the query is evaluated with, or an empty one
/// before it has been worked out.
pub open spec fn projection(computed_show: Option<Seq<ShowSpec>>) -> Seq<ShowSpec> {
    match computed_show {
        Some(s) => s,
        None => Seq::empty(),
    }
}

/// Fresh reducers for the projection that `query` is evaluated with.
pub fn create_reducer(query: &RipLogQuery) -> (r: Reducer)
    ensures
        r@ == fresh_reducers(projection(query@.computed_show)),
{
    let mut r = Reducer { field_reducers: Vec::new() };
    assert(r@ =~= Seq::<ReducerSpec>::empty());
    match &query.computed_show {
        Some(show) => {
            let ghost view = show@;
            let mut i: usize = 0;
            assert(view.subrange(0, 0) =~= Seq::<ShowSpec>::empty());
            while i < show.elements.len()
                invariant
                    i <= show.elements@.len(),
                    view == show@,
                    r@ == fresh_reducers(view.subrange(0, i as int)),
                decreases show.elements@.len() - i,
            {
                proof {
                    let next = view.subrange(0, i + 1);
                    assert(next.drop_last() =~= view.subrange(0, i as int));
                    assert(next.last() == view[i as int]);
                }
                let ghost before = r@;
                match &show.elements[i] {
                    QueryShowElement::Reducer(kind, symbol) => {
                        let fresh = FieldReducer::new(*kind, copy_bytes(symbol.as_slice()));
                        r.field_reducers.push(fresh);
                        assert(r@ =~= before.push(fresh@));
                    },
                    _ => {},
                }
                i += 1;
            }
            assert(view.subrange(0, i as int) =~= view);
        },
        None => {},
    }
    r
}

/// What stands in a table for a value that is missing.
pub open spec fn null_text() -> Seq<u8> {
    ascii("null")
}

/// A shown value, or `null` where it is missing.
pub open spec fn or_null(shown: Option<Seq<u8>>) -> Seq<u8> {
    match shown {
        Some(t) => t,
        None => null_text(),
    }
}

/// The key of the group that a record falls in: what each grouping column
/// shows for it, `null` where the value is missing.
pub open spec fn group_key(groupings: Seq<Seq<u8>>, columns: Seq<ColumnSpec>, record: RecordSpec) -> Seq<
    Seq<u8>,
> {
    groupings.map_values(|g: Seq<u8>| or_null(symbol_shown(columns, g, record)))
}

/// Records whose value in a grouping column is missing fall into the same
/// group as far as that column goes: the key holds `null` there.
pub proof fn lemma_missing_key_part(
    groupings: Seq<Seq<u8>>,
    columns: Seq<ColumnSpec>,
    a: RecordSpec,
    b: RecordSpec,
    i: int,
)
    requires
        0 <= i < groupings.len(),
        symbol_shown(columns, groupings[i], a) is None,
        symbol_shown(columns, groupings[i], b) is None,
    ensures
        group_key(groupings, columns, a)[i] == null_text(),
        group_key(groupings, columns, a)[i] == group_key(groupings, columns, b)[i],
{
}

/// `true` when the record has decoded its date, if a grouping column
/// shows it.
pub open spec fn key_ready(groupings: Seq<Seq<u8>>, columns: Seq<ColumnSpec>, record: RecordSpec) -> bool {
    forall|i: int| 0 <= i < groupings.len() ==> symbol_ready(columns, #[trigger] groupings[i], record)
}

/// The text `null`.
pub fn null_bytes() -> (r: Vec<u8>)
    ensures
        r@ == null_text(),
{
    proof {
        reveal_strlit("null");
    }
    ascii_bytes("null")
}

/// The key of the group that `record` falls in.
pub fn create_group_key(
    groupings: &Vec<Vec<u8>>,
    tdef: &TableDefinition,
    record: &mut BinaryNginxLogRecord,
) -> (key: Vec<Vec<u8>>)
    requires
        old(record).wf(),
    ensures
        final(record).wf(),
        old(record)@.extended_by(final(record)@),
        key_ready(views_of(groupings@), tdef@, final(record)@),
        views_of(key@) == group_key(views_of(groupings@), tdef@, final(record)@),
{
    let ghost names = views_of(groupings@);
    let mut key: Vec<Vec<u8>> = Vec::new();
    let mut i: usize = 0;
    while i < groupings.len()
        invariant
            i <= groupings@.len(),
            names == views_of(groupings@),
            record.wf(),
            old(record)@.extended_by(record@),
            key@.len() == i,
            forall|j: int| 0 <= j < i ==> symbol_ready(tdef@, #[trigger] names[j], record@),
            forall|j: int|
                0 <= j < i ==> (#[trigger] key@[j])@ == or_null(symbol_shown(tdef@, names[j], record@)),
        decreases groupings@.len() - i,
    {
        let ghost before = record@;
        let shown = get_symbol_as_string(tdef, record, groupings[i].as_slice());
        proof {
            assert forall|j: int| 0 <= j < i implies symbol_ready(tdef@, #[trigger] names[j], record@)
                && key@[j]@ == or_null(symbol_shown(tdef@, names[j], record@)) by {
                lemma_symbol_stable(tdef@, names[j], before, record@);
            }
        }
        let part = match shown {
            Some(t) => t,
            None => null_bytes(),
        };
        key.push(part);
        i += 1;
    }
    assert(views_of(key@) =~= group_key(names, tdef@, record@));
    key
}

/// One group of an aggregate: its key and its reducers.
#[derive(Debug, Clone)]
pub struct Group {
    pub key: Vec<Vec<u8>>,
    pub reducer: Reducer,
}

/// A `Group` as a plain value.
pub struct GroupSpec {
    pub key: Seq<Seq<u8>>,
    pub reducers: Seq<ReducerSpec>,
}

impl View for Group {
    type V = GroupSpec;

    open spec fn view(&self) -> GroupSpec {
        GroupSpec { key: views_of(self.key@), reducers: self.reducer@ }
    }
}

/// The views of a vector of groups.
pub open spec fn groups_of(v: Seq<Group>) -> Seq<GroupSpec> {
    v.map_values(|g: Group| g@)
}

/// One application of a reducer, as a function of its state and a record.
pub open spec fn seen_by(columns: Seq<ColumnSpec>) -> spec_fn(ReducerSpec, RecordSpec) -> ReducerSpec {
    |r: ReducerSpec, record: RecordSpec| apply_reducer(r, columns, record)
}

/// The state of a reducer after it has seen `records`, one after the other.
pub open spec fn fold_records(r: ReducerSpec, columns: Seq<ColumnSpec>, records: Seq<RecordSpec>) -> ReducerSpec {
    records.fold_left(r, seen_by(columns))
}

/// `n`, or the largest 64-bit number where `n` does not fit.
pub open spec fn capped(n: nat) -> u64 {
    if n > u64::MAX {
        u64::MAX
    } else {
        n as u64
    }
}

/// How many of `records` `count(symbol)` counts.
pub open spec fn counted_in(symbol: Seq<u8>, columns: Seq<ColumnSpec>, records: Seq<RecordSpec>) -> nat
    decreases records.len(),
{
    if records.len() == 0 {
        0
    } else {
        counted_in(symbol, columns, records.drop_last()) + (if counts(
            symbol,
            columns,
            records.last(),
        ) {
            1nat
        } else {
            0nat
        })
    }
}

/// How many of `records` hold a number in the column `symbol`.
pub open spec fn present_in(symbol: Seq<u8>, columns: Seq<ColumnSpec>, records: Seq<RecordSpec>) -> nat
    decreases records.len(),
{
    if records.len() == 0 {
        0
    } else {
        present_in(symbol, columns, records.drop_last()) + (if symbol_integer(
            columns,
            symbol,
            records.last(),
        ) is Some {
            1nat
        } else {
            0nat
        })
    }
}

/// The sum of the numbers that `records` hold in the column `symbol`.
pub open spec fn total_of(symbol: Seq<u8>, columns: Seq<ColumnSpec>, records: Seq<RecordSpec>) -> nat
    decreases records.len(),
{
    if records.len() == 0 {
        0
    } else {
        total_of(symbol, columns, records.drop_last()) + (match symbol_integer(
            columns,
            symbol,
            records.last(),
        ) {
            Some(v) => v as nat,
            None => 0nat,
        })
    }
}

/// The largest of the numbers that `records` hold in the column `symbol`,
/// or zero where they hold none.
pub open spec fn largest_of(symbol: Seq<u8>, columns: Seq<ColumnSpec>, records: Seq<RecordSpec>) -> u64
    decreases records.len(),
{
    if records.len() == 0 {
        0
    } else {
        let before = largest_of(symbol, columns, records.drop_last());
        match symbol_integer(columns, symbol, records.last()) {
            Some(v) => if v > before {
                v
            } else {
                before
            },
            None => before,
        }
    }
}

/// What a reducer of the given kind reports of `records`: the count, the
/// sum, the maximum, or the sum divided by the count, where a count or a
/// sum that does not fit in 64 bits stands at the largest number.
pub open spec fn aggregate_of(
    kind: QueryReducer,
    symbol: Seq<u8>,
    columns: Seq<ColumnSpec>,
    records: Seq<RecordSpec>,
) -> u64 {
    match kind {
        QueryReducer::Count => capped(counted_in(symbol, columns, records)),
        QueryReducer::Sum => capped(total_of(symbol, columns, records)),
        QueryReducer::Max => largest_of(symbol, columns, records),
        QueryReducer::Avg => if present_in(symbol, columns, records) > 0 {
            capped(total_of(symbol, columns, records)) / capped(present_in(symbol, columns, records))
        } else {
            0
        },
    }
}

/// The state of a fresh reducer after `records`.
proof fn lemma_fold_state(
    kind: QueryReducer,
    symbol: Seq<u8>,
    columns: Seq<ColumnSpec>,
    records: Seq<RecordSpec>,
)
    ensures
        ({
            let r = fold_records(fresh_reducer(kind, symbol), columns, records);
            &&& r.kind == kind
            &&& r.symbol == symbol
            &&& kind == QueryReducer::Count ==> r.count == capped(counted_in(symbol, columns, records))
            &&& kind == QueryReducer::Sum ==> r.sum == capped(total_of(symbol, columns, records))
            &&& kind == QueryReducer::Max ==> r.max == largest_of(symbol, columns, records)
            &&& kind == QueryReducer::Avg ==> r.sum == capped(total_of(symbol, columns, records))
                && r.count == capped(present_in(symbol, columns, records))
        }),
    decreases records.len(),
{
    if records.len() > 0 {
        lemma_fold_state(kind, symbol, columns, records.drop_last());
    }
}

/// The result of an aggregate is the fold of its reducer over the
/// records: a fresh reducer that has seen `records`, one after the other,
/// reports their count, their sum, their maximum, or their sum divided by
/// their count, rounded down.
pub proof fn lemma_fold_result(
    kind: QueryReducer,
    symbol: Seq<u8>,
    columns: Seq<ColumnSpec>,
    records: Seq<RecordSpec>,
)
    ensures
        reducer_result(fold_records(fresh_reducer(kind, symbol), columns, records)) == aggregate_of(
            kind,
            symbol,
            columns,
            records,
        ),
{
    lemma_fold_state(kind, symbol, columns, records);
}

/// Two records may be seen in either order.
pub proof fn lemma_apply_commutes(r: ReducerSpec, columns: Seq<ColumnSpec>, a: RecordSpec, b: RecordSpec)
    ensures
        apply_reducer(apply_reducer(r, columns, a), columns, b) == apply_reducer(
            apply_reducer(r, columns, b),
            columns,
            a,
        ),
{
}

/// The order of the records does not matter: a reducer that has seen the
/// same records in another order is in the same state, and so reports the
/// same.
pub proof fn lemma_fold_any_order(
    r: ReducerSpec,
    columns: Seq<ColumnSpec>,
    first: Seq<RecordSpec>,
    second: Seq<RecordSpec>,
)
    requires
        first.to_multiset() == second.to_multiset(),
    ensures
        fold_records(r, columns, first) == fold_records(r, columns, second),
{
    let f = seen_by(columns);
    assert forall|x: RecordSpec, y: RecordSpec, v: ReducerSpec| #[trigger] f(f(v, x), y) == f(
        f(v, y),
        x,
    ) by {
        lemma_apply_commutes(v, columns, x, y);
    }
    assert(commutative_foldl(f));
    lemma_fold_left_permutation(first, second, f, r);
}

} // verus!
