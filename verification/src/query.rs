//! The evaluator: it takes the records one by one, passes each through
//! the filter, and either hands back its row at once or folds it into the
//! reducers of its group; at the end it hands back the rest of the table.
use vstd::prelude::*;
use crate::filter::evaluate_filter;
use crate::filter::lemma_filter_stable;
use crate::filter::passes;
use crate::format::closing_line;
use crate::format::grown_fields;
use crate::format::header_lines;
use crate::format::labels_of;
use crate::format::plan_formatter;
use crate::format::row_line;
use crate::format::texts_of;
use crate::format::FieldSpec;
use crate::format::FormatterSpec;
use crate::format::RecordFormatter;
use crate::format::RowSource;
use crate::nginx::BinaryNginxLogRecord;
use crate::nginx::RecordSpec;
use crate::order::is_group_order;
use crate::order::sort_groups;
use crate::parser::computed_show;
use crate::parser::holds_reducer;
use crate::parser::is_aggregate;
use crate::parser::QuerySpec;
use crate::parser::RipLogQuery;
use crate::text::opt_bytes;
use crate::reduce::apply_all;
use crate::reduce::create_group_key;
use crate::reduce::create_reducer;
use crate::reduce::fold_records;
use crate::reduce::fresh_reducers;
use crate::reduce::group_key;
use crate::reduce::groups_of;
use crate::reduce::projection;
use crate::reduce::results_of;
use crate::text::views_of;
use crate::reduce::Group;
use crate::reduce::GroupSpec;
use crate::reduce::Reducer;
use crate::reduce::ReducerSpec;
use crate::table::ColumnSpec;
use crate::table::TableDefinition;
use crate::text::bytes_eq;

verus! {

/// The state of the evaluation of one query.
#[derive(Debug)]
pub struct QueryEvaluator {
    pub query: RipLogQuery,
    pub definition: TableDefinition,
    pub group_map: Vec<Group>,
    pub global_reducer: Reducer,
    pub aggregate: bool,
    pub record_formatter: RecordFormatter,
    pub printed_count: usize,
}

/// A `QueryEvaluator` as a plain value.
pub struct EvaluatorSpec {
    pub query: QuerySpec,
    pub columns: Seq<ColumnSpec>,
    pub groups: Seq<GroupSpec>,
    pub global: Seq<ReducerSpec>,
    pub aggregate: bool,
    pub formatter: FormatterSpec,
    pub printed: usize,
}

impl View for QueryEvaluator {
    type V = EvaluatorSpec;

    open spec fn view(&self) -> EvaluatorSpec {
        EvaluatorSpec {
            query: self.query@,
            columns: self.definition@,
            groups: groups_of(self.group_map@),
            global: self.global_reducer@,
            aggregate: self.aggregate,
            formatter: self.record_formatter@,
            printed: self.printed_count,
        }
    }
}

/// Index of the first group with the given key, or the number of groups
/// when there is none.
pub open spec fn key_index(groups: Seq<GroupSpec>, key: Seq<Seq<u8>>) -> int
    decreases groups.len(),
{
    if groups.len() == 0 {
        0
    } else if groups[0].key == key {
        0
    } else {
        1 + key_index(groups.drop_first(), key)
    }
}

/// No two groups share a key.
pub open spec fn distinct_keys(groups: Seq<GroupSpec>) -> bool {
    forall|i: int, j: int|
        0 <= i < j < groups.len() ==> (#[trigger] groups[i]).key != (#[trigger] groups[j]).key
}

/// The groups after one more record with the given key: the group of that
/// key, made afresh and put last if there is none yet, has seen the record.
pub open spec fn upsert(
    groups: Seq<GroupSpec>,
    key: Seq<Seq<u8>>,
    fresh: Seq<ReducerSpec>,
    columns: Seq<ColumnSpec>,
    record: RecordSpec,
) -> Seq<GroupSpec> {
    let at = key_index(groups, key);
    if at < groups.len() {
        groups.update(
            at,
            GroupSpec { key, reducers: apply_all(groups[at].reducers, columns, record) },
        )
    } else {
        groups.push(GroupSpec { key, reducers: apply_all(fresh, columns, record) })
    }
}

/// One more than `n`, unless `n` is the largest number.
pub open spec fn bump(n: usize) -> usize {
    if n < usize::MAX {
        (n + 1) as usize
    } else {
        n
    }
}

impl EvaluatorSpec {
    /// The invariant of an evaluator: the projection has been worked out,
    /// the mode is that of the query, and no two groups share a key.
    pub open spec fn wf(self) -> bool {
        &&& self.query.computed_show is Some
        &&& self.aggregate == is_aggregate(self.query)
        &&& distinct_keys(self.groups)
    }

    /// The state before the first record: no groups, fresh reducers, and
    /// the columns of the table as planned.  Where the query is no
    /// aggregate the header has been shown, and the columns have grown to
    /// fit their labels.
    pub open spec fn start(q: QuerySpec, columns: Seq<ColumnSpec>) -> EvaluatorSpec {
        let planned = plan_formatter(q, columns);
        EvaluatorSpec {
            query: q,
            columns,
            groups: Seq::empty(),
            global: fresh_reducers(projection(q.computed_show)),
            aggregate: is_aggregate(q),
            formatter: if is_aggregate(q) {
                planned
            } else {
                FormatterSpec {
                    fields: grown_fields(planned.fields, labels_of(planned.fields)),
                    ..planned
                }
            },
            printed: 0,
        }
    }

    /// `true` when the evaluation needs no more records: the query is no
    /// aggregate and has shown as many rows as its limit allows.
    pub open spec fn stops(self) -> bool {
        !self.aggregate && (match self.query.limit {
            Some(l) => self.printed >= l,
            None => false,
        })
    }

    /// Whether `record` passes the filter.
    pub open spec fn accepts(self, record: RecordSpec) -> bool {
        passes(self.query.filter, self.columns, record)
    }

    /// What a row made from `record` shows in each column.
    pub open spec fn record_texts(self, record: RecordSpec) -> Seq<Seq<u8>> {
        texts_of(self.formatter.fields, RowSource::Record(self.columns, record))
    }

    /// The row that the evaluation of `record` hands back: its row where
    /// it passes the filter and the query is no aggregate, none otherwise.
    pub open spec fn emits(self, record: RecordSpec) -> Option<Seq<u8>> {
        if self.accepts(record) && !self.aggregate {
            Some(row_line(self.formatter.fields, self.record_texts(record)))
        } else {
            None
        }
    }

    /// The state after `record`.  A record that fails the filter changes
    /// nothing.  One that passes is counted and widens the columns that
    /// its row does not fit, where the query is no aggregate; otherwise it
    /// is seen by the reducers of its group, or by those of the whole
    /// stream where the query does not group.
    pub open spec fn step(self, record: RecordSpec) -> EvaluatorSpec {
        if !self.accepts(record) {
            self
        } else if !self.aggregate {
            EvaluatorSpec {
                formatter: FormatterSpec {
                    fields: grown_fields(self.formatter.fields, self.record_texts(record)),
                    ..self.formatter
                },
                printed: bump(self.printed),
                ..self
            }
        } else {
            match self.query.grouping {
                Some(g) => EvaluatorSpec {
                    groups: upsert(
                        self.groups,
                        group_key(g, self.columns, record),
                        fresh_reducers(projection(self.query.computed_show)),
                        self.columns,
                        record,
                    ),
                    ..self
                },
                None => EvaluatorSpec {
                    global: apply_all(self.global, self.columns, record),
                    ..self
                },
            }
        }
    }
}

/// `true` when `query` is an aggregate.
pub fn is_aggregate_query(query: &RipLogQuery) -> (r: bool)
    ensures
        r == is_aggregate(query@),
{
    query.grouping.is_some() || (match &query.computed_show {
        Some(show) => holds_reducer(&show.elements),
        None => false,
    })
}

/// `true` when the two keys are the same.
pub fn keys_equal(a: &Vec<Vec<u8>>, b: &Vec<Vec<u8>>) -> (same: bool)
    ensures
        same == (views_of(a@) == views_of(b@)),
{
    if a.len() != b.len() {
        assert(views_of(a@).len() != views_of(b@).len());
        return false;
    }
    let mut i: usize = 0;
    while i < a.len()
        invariant
            i <= a@.len(),
            a@.len() == b@.len(),
            forall|j: int| 0 <= j < i ==> (#[trigger] a@[j])@ == b@[j]@,
        decreases a@.len() - i,
    {
        if !bytes_eq(a[i].as_slice(), b[i].as_slice()) {
            assert(views_of(a@)[i as int] != views_of(b@)[i as int]);
            return false;
        }
        i += 1;
    }
    assert(views_of(a@) =~= views_of(b@));
    true
}

/// A position that holds `key` with none before it is the one `key_index`
/// names.
pub proof fn lemma_key_index_unique(groups: Seq<GroupSpec>, key: Seq<Seq<u8>>, at: int)
    requires
        0 <= at <= groups.len(),
        at < groups.len() ==> groups[at].key == key,
        forall|j: int| 0 <= j < at ==> (#[trigger] groups[j]).key != key,
    ensures
        key_index(groups, key) == at,
    decreases groups.len(),
{
    if groups.len() > 0 && at > 0 {
        let rest = groups.drop_first();
        assert(groups[0].key != key);
        assert forall|j: int| 0 <= j < at - 1 implies (#[trigger] rest[j]).key != key by {
            assert(rest[j] == groups[j + 1]);
        }
        lemma_key_index_unique(rest, key, at - 1);
    }
}

/// Groups with distinct keys keep distinct keys when one more record is
/// put in.
pub proof fn lemma_upsert_distinct(
    groups: Seq<GroupSpec>,
    key: Seq<Seq<u8>>,
    fresh: Seq<ReducerSpec>,
    columns: Seq<ColumnSpec>,
    record: RecordSpec,
)
    requires
        distinct_keys(groups),
    ensures
        distinct_keys(upsert(groups, key, fresh, columns, record)),
{
    let at = key_index(groups, key);
    lemma_key_index(groups, key);
    let after = upsert(groups, key, fresh, columns, record);
    assert forall|i: int, j: int| 0 <= i < j < after.len() implies (#[trigger] after[i]).key != (
    #[trigger] after[j]).key by {
        if at < groups.len() {
            assert(after[i].key == groups[i].key);
            assert(after[j].key == groups[j].key);
        } else {
            if j < groups.len() {
                assert(after[i] == groups[i] && after[j] == groups[j]);
            } else {
                assert(after[i] == groups[i]);
            }
        }
    }
}

/// `key_index` names the first group with the key, if there is one.
pub proof fn lemma_key_index(groups: Seq<GroupSpec>, key: Seq<Seq<u8>>)
    ensures
        0 <= key_index(groups, key) <= groups.len(),
        key_index(groups, key) < groups.len() ==> groups[key_index(groups, key)].key == key,
        forall|j: int| 0 <= j < key_index(groups, key) ==> (#[trigger] groups[j]).key != key,
    decreases groups.len(),
{
    if groups.len() > 0 && groups[0].key != key {
        let rest = groups.drop_first();
        lemma_key_index(rest, key);
        assert forall|j: int| 0 <= j < key_index(groups, key) implies (#[trigger] groups[j]).key
            != key by {
            if j > 0 {
                assert(rest[j - 1] == groups[j]);
            }
        }
    }
}

/// A query with the projection that it is evaluated with worked out.
pub open spec fn compiled(q: QuerySpec, columns: Seq<ColumnSpec>) -> QuerySpec {
    QuerySpec { computed_show: Some(computed_show(q.show, q.grouping, columns)), ..q }
}

/// The lines that are shown before the first record: the header where the
/// query is no aggregate, nothing otherwise.
pub open spec fn opening_lines(q: QuerySpec, columns: Seq<ColumnSpec>) -> Seq<Seq<u8>> {
    if is_aggregate(q) {
        Seq::empty()
    } else {
        header_lines(plan_formatter(q, columns).fields)
    }
}

impl QueryEvaluator {
    /// An evaluator for `query` over records of the schema `definition`,
    /// and the lines to show before the first record.
    pub fn new(query: RipLogQuery, definition: TableDefinition) -> (r: (QueryEvaluator, Vec<Vec<u8>>))
        ensures
            r.0@ == EvaluatorSpec::start(compiled(query@, definition@), definition@),
            r.0@.wf(),
            views_of(r.1@) == opening_lines(compiled(query@, definition@), definition@),
    {
        let mut rquery = query;
        rquery.compute_show(&definition);
        let formatter = RecordFormatter::new(&rquery, &definition);
        let global_reducer = create_reducer(&rquery);
        let aggregate = is_aggregate_query(&rquery);
        let mut evaluator = QueryEvaluator {
            query: rquery,
            definition,
            group_map: Vec::new(),
            global_reducer,
            aggregate,
            record_formatter: formatter,
            printed_count: 0,
        };
        assert(groups_of(evaluator.group_map@) =~= Seq::<GroupSpec>::empty());
        let mut lines: Vec<Vec<u8>> = Vec::new();
        if !evaluator.aggregate {
            lines = evaluator.record_formatter.format_header_row();
        } else {
            assert(views_of(lines@) =~= Seq::<Seq<u8>>::empty());
        }
        (evaluator, lines)
    }

    /// `true` when no more records are needed.
    pub fn should_stop(&self) -> (r: bool)
        ensures
            r == self@.stops(),
    {
        !self.aggregate && (match &self.query.limit {
            Some(l) => self.printed_count >= l.limit,
            None => false,
        })
    }

    /// Whether `record` passes the filter of the query.
    pub fn apply_filters(&self, record: &mut BinaryNginxLogRecord) -> (r: bool)
        requires
            old(record).wf(),
        ensures
            final(record).wf(),
            old(record)@.extended_by(final(record)@),
            r == self@.accepts(old(record)@),
    {
        match &self.query.filter {
            Some(filter) => evaluate_filter(filter, &self.definition, record),
            None => true,
        }
    }

    /// Folds `record` into the reducers of its group, or into those of the
    /// whole stream where the query does not group.
    pub fn aggregate(&mut self, record: &mut BinaryNginxLogRecord)
        requires
            old(record).wf(),
            old(self)@.wf(),
            old(self)@.aggregate,
            old(self)@.accepts(old(record)@),
        ensures
            final(record).wf(),
            old(record)@.extended_by(final(record)@),
            final(self)@ == old(self)@.step(final(record)@),
            final(self)@.wf(),
    {
        proof {
            match old(self)@.query.filter {
                Some(f) => {
                    lemma_filter_stable(f, self@.columns, old(record)@, record@);
                },
                None => {},
            }
        }
        if self.query.grouping.is_some() {
            let key = match &self.query.grouping {
                Some(g) => create_group_key(&g.groupings, &self.definition, record),
                None => Vec::new(),
            };
            proof {
                match old(self)@.query.filter {
                    Some(f) => {
                        lemma_filter_stable(f, self@.columns, old(record)@, record@);
                    },
                    None => {},
                }
            }
            let ghost groups = self@.groups;
            let ghost wanted = views_of(key@);
            let n = self.group_map.len();
            let mut at: usize = 0;
            while at < n && !keys_equal(&self.group_map[at].key, &key)
                invariant
                    at <= n,
                    n == self.group_map@.len(),
                    groups == self@.groups,
                    wanted == views_of(key@),
                    forall|j: int| 0 <= j < at ==> (#[trigger] groups[j]).key != wanted,
                decreases n - at,
            {
                assert(groups[at as int] == self.group_map@[at as int]@);
                at += 1;
            }
            proof {
                if at < n {
                    assert(groups[at as int] == self.group_map@[at as int]@);
                }
                lemma_key_index_unique(groups, wanted, at as int);
                lemma_upsert_distinct(
                    groups,
                    wanted,
                    fresh_reducers(projection(self@.query.computed_show)),
                    self@.columns,
                    record@,
                );
            }
            if at < n {
                let ghost before = self.group_map@;
                self.group_map[at].reducer.apply_record(&self.definition, record);
                proof {
                    assert(self.group_map@[at as int].key == before[at as int].key);
                    assert(forall|j: int|
                        0 <= j < n && j != at ==> self.group_map@[j] == #[trigger] before[j]);
                    assert(self@.groups =~= upsert(
                        groups,
                        wanted,
                        fresh_reducers(projection(self@.query.computed_show)),
                        self@.columns,
                        record@,
                    ));
                }
            } else {
                let mut reducer = create_reducer(&self.query);
                reducer.apply_record(&self.definition, record);
                let group = Group { key, reducer };
                self.group_map.push(group);
                proof {
                    assert(self@.groups =~= groups.push(group@));
                }
            }
        } else {
            self.global_reducer.apply_record(&self.definition, record);
        }
    }

    /// Takes one record: where it passes the filter, its row is handed
    /// back at once if the query is no aggregate, and it is folded into
    /// the reducers otherwise.
    pub fn evaluate(&mut self, item: &mut BinaryNginxLogRecord) -> (row: Option<Vec<u8>>)
        requires
            old(item).wf(),
            old(self)@.wf(),
        ensures
            final(item).wf(),
            old(item)@.extended_by(final(item)@),
            final(self)@.wf(),
            final(self)@ == old(self)@.step(final(item)@),
            opt_bytes(row) == old(self)@.emits(final(item)@),
    {
        let passed = self.apply_filters(item);
        let ghost mid = item@;
        proof {
            match old(self)@.query.filter {
                Some(f) => {
                    lemma_filter_stable(f, self@.columns, old(item)@, mid);
                },
                None => {},
            }
        }
        if passed {
            if self.aggregate {
                self.aggregate(item);
                None
            } else {
                let row = self.record_formatter.format_record(&self.definition, item);
                proof {
                    match old(self)@.query.filter {
                        Some(f) => {
                            lemma_filter_stable(f, self@.columns, mid, item@);
                        },
                        None => {},
                    }
                }
                if self.printed_count < usize::MAX {
                    self.printed_count += 1;
                }
                Some(row)
            }
        } else {
            proof {
                match old(self)@.query.filter {
                    Some(f) => {
                        lemma_filter_stable(f, self@.columns, mid, item@);
                    },
                    None => {},
                }
            }
            None
        }
    }
}

/// The columns after they have shown one row for each of `sources`, in
/// order.
pub open spec fn rows_fields(fields: Seq<FieldSpec>, sources: Seq<RowSource>) -> Seq<FieldSpec>
    decreases sources.len(),
{
    if sources.len() == 0 {
        fields
    } else {
        let before = rows_fields(fields, sources.drop_last());
        grown_fields(before, texts_of(before, sources.last()))
    }
}

/// One row for each of `sources`, in order, each at the widths that the
/// rows before it have left.
pub open spec fn rows_lines(fields: Seq<FieldSpec>, sources: Seq<RowSource>) -> Seq<Seq<u8>>
    decreases sources.len(),
{
    if sources.len() == 0 {
        Seq::empty()
    } else {
        let before = rows_fields(fields, sources.drop_last());
        rows_lines(fields, sources.drop_last()).push(
            row_line(before, texts_of(before, sources.last())),
        )
    }
}

/// What the row of a group is made from.
pub open spec fn group_row(g: GroupSpec) -> RowSource {
    RowSource::Group(g.key, results_of(g.reducers))
}

/// What the rows of the groups at the positions `order` are made from.
pub open spec fn group_rows(groups: Seq<GroupSpec>, order: Seq<usize>) -> Seq<RowSource> {
    order.map_values(|i: usize| group_row(groups[i as int]))
}

/// How many of `n` rows a limit lets through.
pub open spec fn shown_count(limit: Option<usize>, n: nat) -> nat {
    match limit {
        Some(l) => if l < n {
            l as nat
        } else {
            n
        },
        None => n,
    }
}

impl EvaluatorSpec {
    /// The table of an aggregate whose rows are made from `sources`: the
    /// header, the rows, the closing line.
    pub open spec fn table(self, sources: Seq<RowSource>) -> Seq<Seq<u8>> {
        let fields = self.formatter.fields;
        let headed = grown_fields(fields, labels_of(fields));
        header_lines(fields) + rows_lines(headed, sources) + seq![
            closing_line(rows_fields(headed, sources)),
        ]
    }

    /// The lines that end the table of a query that does not group: the
    /// closing line alone where the query is no aggregate, and otherwise
    /// the header, the one row of what the reducers report, and the closing
    /// line.
    pub open spec fn plain_ending(self) -> Seq<Seq<u8>> {
        if self.aggregate {
            self.table(seq![RowSource::Total(results_of(self.global))])
        } else {
            seq![closing_line(self.formatter.fields)]
        }
    }

    /// The table of a query that groups, with the groups shown in the
    /// order `order` as far as the limit lets them through.
    pub open spec fn grouped_ending(self, order: Seq<usize>) -> Seq<Seq<u8>> {
        self.table(
            group_rows(
                self.groups,
                order.subrange(0, shown_count(self.query.limit, order.len()) as int),
            ),
        )
    }

    /// `true` when `lines` end the table: for a query that groups, they
    /// show the groups in an order that the query allows.
    pub open spec fn ends_with(self, lines: Seq<Seq<u8>>) -> bool {
        if self.aggregate && self.query.grouping is Some {
            exists|order: Seq<usize>|
                is_group_order(order, self.groups, self.formatter) && lines
                    == #[trigger] self.grouped_ending(order)
        } else {
            lines == self.plain_ending()
        }
    }
}

/// Appends every line of `more`.
fn append_lines(lines: &mut Vec<Vec<u8>>, more: Vec<Vec<u8>>)
    ensures
        views_of(final(lines)@) == views_of(old(lines)@) + views_of(more@),
{
    let mut more = more;
    let ghost added = views_of(more@);
    lines.append(&mut more);
    assert(views_of(lines@) =~= views_of(old(lines)@) + added);
}

impl QueryEvaluator {
    /// Ends the evaluation and hands back the lines that end the table.
    /// Nothing but the widths of the columns changes.
    pub fn finalize(&mut self) -> (lines: Vec<Vec<u8>>)
        ensures
            old(self)@.ends_with(views_of(lines@)),
            final(self)@ == (EvaluatorSpec { formatter: final(self)@.formatter, ..old(self)@ }),
            final(self)@.formatter.sort == old(self)@.formatter.sort,
    {
        let ghost start = self@;
        let ghost fields = self@.formatter.fields;
        let ghost headed = grown_fields(fields, labels_of(fields));
        let mut lines: Vec<Vec<u8>> = Vec::new();
        assert(views_of(lines@) =~= Seq::<Seq<u8>>::empty());
        if self.aggregate {
            let header = self.record_formatter.format_header_row();
            append_lines(&mut lines, header);
            assert(views_of(lines@) =~= header_lines(fields));
            if self.query.grouping.is_some() {
                let order = sort_groups(&self.record_formatter, &self.group_map);
                let count = match &self.query.limit {
                    Some(l) => if l.limit < order.len() {
                        l.limit
                    } else {
                        order.len()
                    },
                    None => order.len(),
                };
                let ghost shown = order@.subrange(0, count as int);
                let ghost sources = group_rows(start.groups, shown);
                let mut k: usize = 0;
                assert(sources.subrange(0, 0) =~= Seq::<RowSource>::empty());
                assert(views_of(lines@) =~= header_lines(fields) + rows_lines(
                    headed,
                    sources.subrange(0, 0),
                ));
                while k < count
                    invariant
                        k <= count <= order@.len(),
                        start.groups == groups_of(self.group_map@),
                        is_group_order(order@, start.groups, start.formatter),
                        shown == order@.subrange(0, count as int),
                        sources == group_rows(start.groups, shown),
                        self@ == (EvaluatorSpec { formatter: self@.formatter, ..start }),
                        self@.formatter.sort == start.formatter.sort,
                        self@.formatter.fields == rows_fields(headed, sources.subrange(0, k as int)),
                        views_of(lines@) == header_lines(fields) + rows_lines(
                            headed,
                            sources.subrange(0, k as int),
                        ),
                    decreases count - k,
                {
                    let at = order[k];
                    proof {
                        let next = sources.subrange(0, k + 1);
                        assert(next.drop_last() =~= sources.subrange(0, k as int));
                        assert(next.last() == sources[k as int]);
                        assert(shown[k as int] == at);
                        assert(sources[k as int] == group_row(start.groups[at as int]));
                        assert(start.groups[at as int] == self.group_map@[at as int]@);
                    }
                    let ghost before = views_of(lines@);
                    let row = self.record_formatter.format_grouped_record(
                        &self.group_map[at].key,
                        &self.group_map[at].reducer,
                    );
                    lines.push(row);
                    assert(views_of(lines@) =~= before.push(row@));
                    k += 1;
                }
                assert(sources.subrange(0, count as int) =~= sources);
                let closing = self.record_formatter.format_closing_row();
                let ghost before = views_of(lines@);
                lines.push(closing);
                assert(views_of(lines@) =~= before.push(closing@));
                assert(views_of(lines@) =~= start.grouped_ending(order@));
            } else {
                let ghost sources = seq![RowSource::Total(results_of(start.global))];
                let ghost before = views_of(lines@);
                let row = self.record_formatter.format_reduced_record(&self.global_reducer);
                lines.push(row);
                proof {
                    reveal_with_fuel(rows_lines, 2);
                    reveal_with_fuel(rows_fields, 2);
                    assert(sources.drop_last() =~= Seq::<RowSource>::empty());
                    assert(sources.last() == RowSource::Total(results_of(start.global)));
                    assert(rows_lines(headed, sources) =~= seq![row@]);
                    assert(views_of(lines@) =~= before.push(row@));
                }
                let closing = self.record_formatter.format_closing_row();
                let ghost before2 = views_of(lines@);
                lines.push(closing);
                assert(views_of(lines@) =~= before2.push(closing@));
                assert(views_of(lines@) =~= start.plain_ending());
            }
        } else {
            let closing = self.record_formatter.format_closing_row();
            lines.push(closing);
            assert(views_of(lines@) =~= seq![closing_line(fields)]);
        }
        lines
    }
}

/// Those of `records` that pass the filter, in order.
pub open spec fn accepted(e: EvaluatorSpec, records: Seq<RecordSpec>) -> Seq<RecordSpec>
    decreases records.len(),
{
    if records.len() == 0 {
        Seq::empty()
    } else {
        let front = accepted(e, records.drop_last());
        if e.accepts(records.last()) {
            front.push(records.last())
        } else {
            front
        }
    }
}

/// The state after `records`, one after the other.
pub open spec fn after_records(e: EvaluatorSpec, records: Seq<RecordSpec>) -> EvaluatorSpec
    decreases records.len(),
{
    if records.len() == 0 {
        e
    } else {
        after_records(e, records.drop_last()).step(records.last())
    }
}

/// Records change neither the query nor the schema nor the mode.
pub proof fn lemma_after_records_keeps(e: EvaluatorSpec, records: Seq<RecordSpec>)
    ensures
        after_records(e, records).query == e.query,
        after_records(e, records).columns == e.columns,
        after_records(e, records).aggregate == e.aggregate,
        e.aggregate && e.query.grouping is None ==> after_records(e, records).global.len()
            == e.global.len(),
    decreases records.len(),
{
    if records.len() > 0 {
        lemma_after_records_keeps(e, records.drop_last());
    }
}

/// In an aggregate that does not group, each reducer ends in the state of
/// the fold over the records that pass the filter.
pub proof fn lemma_ungrouped_totals(e: EvaluatorSpec, records: Seq<RecordSpec>, i: int)
    requires
        e.aggregate,
        e.query.grouping is None,
        0 <= i < e.global.len(),
    ensures
        after_records(e, records).global.len() == e.global.len(),
        after_records(e, records).global[i] == fold_records(
            e.global[i],
            e.columns,
            accepted(e, records),
        ),
    decreases records.len(),
{
    lemma_after_records_keeps(e, records);
    if records.len() > 0 {
        let front = records.drop_last();
        lemma_ungrouped_totals(e, front, i);
        lemma_after_records_keeps(e, front);
        let before = after_records(e, front);
        if e.accepts(records.last()) {
            let seen = accepted(e, front).push(records.last());
            assert(seen.drop_last() =~= accepted(e, front));
            assert(seen.last() == records.last());
            assert(before.accepts(records.last()));
        } else {
            assert(!before.accepts(records.last()));
        }
    }
}

} // verus!
