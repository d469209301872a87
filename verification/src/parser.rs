//! The query: a filter, a grouping, a projection, a sort and a limit, each
//! optional, and the projection that a query is evaluated with.
use vstd::prelude::*;
use crate::pattern::QueryRegex;
use crate::table::ColumnSpec;
use crate::table::TableDefinition;
use crate::text::ascii;
use crate::text::ascii_bytes;
use crate::text::copy_bytes;
use crate::text::lowered;
use crate::text::word_is;

verus! {

#[derive(Clone, Copy, Debug, PartialEq, Eq, Structural)]
pub enum QueryFilterBinaryOp {
    Lt,
    Gt,
    Eq,
    Ne,
    Re,
    Nr,
}

#[derive(Clone, Copy, Debug, PartialEq, Eq, Structural)]
pub enum QueryReducer {
    Count,
    Sum,
    Max,
    Avg,
}

#[derive(Clone, Copy, Debug, PartialEq, Eq, Structural)]
pub enum QuerySortOrdering {
    ASC,
    DESC,
}

/// An operand of a comparison.  `Int`, `Double` and `Date` carry the
/// bytes they were written with; for the numbers these are what a
/// comparison goes by.  A date is an instant in seconds since the Unix
/// epoch.
#[derive(Debug)]
pub enum QueryValue {
    Symbol(Vec<u8>),
    Text(Vec<u8>),
    Regex(QueryRegex),
    Int(i64, Vec<u8>),
    Double(Vec<u8>),
    Boolean(bool),
    Date(i64, Vec<u8>),
    Null,
}

/// A `QueryValue` as a plain value; a regular expression is its pattern.
pub enum ValueSpec {
    Symbol(Seq<u8>),
    Text(Seq<u8>),
    Regex(Seq<u8>),
    Int(i64, Seq<u8>),
    Double(Seq<u8>),
    Boolean(bool),
    Date(i64, Seq<u8>),
    Null,
}

impl View for QueryValue {
    type V = ValueSpec;

    open spec fn view(&self) -> ValueSpec {
        match self {
            QueryValue::Symbol(s) => ValueSpec::Symbol(s@),
            QueryValue::Text(t) => ValueSpec::Text(t@),
            QueryValue::Regex(r) => ValueSpec::Regex(r@),
            QueryValue::Int(i, b) => ValueSpec::Int(*i, b@),
            QueryValue::Double(b) => ValueSpec::Double(b@),
            QueryValue::Boolean(b) => ValueSpec::Boolean(*b),
            QueryValue::Date(d, t) => ValueSpec::Date(*d, t@),
            QueryValue::Null => ValueSpec::Null,
        }
    }
}

impl QueryValue {
    pub fn is_date(&self) -> (r: bool)
        ensures
            r == self@ is Date,
    {
        match self {
            QueryValue::Date(_, _) => true,
            _ => false,
        }
    }
}

#[derive(Debug)]
pub enum QueryFilter {
    BinaryOpFilter(QueryValue, QueryValue, QueryFilterBinaryOp),
    AndFilter(Box<QueryFilter>, Box<QueryFilter>),
    OrFilter(Box<QueryFilter>, Box<QueryFilter>),
}

/// A `QueryFilter` as a plain value.
pub enum FilterSpec {
    BinaryOp(ValueSpec, ValueSpec, QueryFilterBinaryOp),
    And(Box<FilterSpec>, Box<FilterSpec>),
    Or(Box<FilterSpec>, Box<FilterSpec>),
}

impl QueryFilter {
    /// The filter as a plain value.
    pub open spec fn as_spec(&self) -> FilterSpec
        decreases self,
    {
        match self {
            QueryFilter::BinaryOpFilter(a, b, op) => FilterSpec::BinaryOp(a@, b@, *op),
            QueryFilter::AndFilter(a, b) => FilterSpec::And(
                Box::new(a.as_spec()),
                Box::new(b.as_spec()),
            ),
            QueryFilter::OrFilter(a, b) => FilterSpec::Or(
                Box::new(a.as_spec()),
                Box::new(b.as_spec()),
            ),
        }
    }
}

impl View for QueryFilter {
    type V = FilterSpec;

    open spec fn view(&self) -> FilterSpec {
        self.as_spec()
    }
}

#[derive(Debug, Clone)]
pub struct QueryGrouping {
    pub groupings: Vec<Vec<u8>>,
}

impl View for QueryGrouping {
    type V = Seq<Seq<u8>>;

    open spec fn view(&self) -> Seq<Seq<u8>> {
        self.groupings@.map_values(|g: Vec<u8>| g@)
    }
}

#[derive(Debug, Clone)]
pub enum QueryShowElement {
    All,
    Symbol(Vec<u8>),
    Reducer(QueryReducer, Vec<u8>),
}

/// A `QueryShowElement` as a plain value.
pub enum ShowSpec {
    All,
    Symbol(Seq<u8>),
    Reducer(QueryReducer, Seq<u8>),
}

impl View for QueryShowElement {
    type V = ShowSpec;

    open spec fn view(&self) -> ShowSpec {
        match self {
            QueryShowElement::All => ShowSpec::All,
            QueryShowElement::Symbol(s) => ShowSpec::Symbol(s@),
            QueryShowElement::Reducer(r, s) => ShowSpec::Reducer(*r, s@),
        }
    }
}

impl QueryShowElement {
    pub fn is_reducer(&self) -> (r: bool)
        ensures
            r == self@ is Reducer,
    {
        match self {
            QueryShowElement::Reducer(_, _) => true,
            _ => false,
        }
    }

    pub fn symbol(&self) -> (r: Option<&Vec<u8>>)
        ensures
            match r {
                Some(s) => self@ == ShowSpec::Symbol(s@),
                None => !(self@ is Symbol),
            },
    {
        match self {
            QueryShowElement::Symbol(sym) => Some(sym),
            _ => None,
        }
    }

    pub fn is_star(&self) -> (r: bool)
        ensures
            r == self@ is All,
    {
        match self {
            QueryShowElement::All => true,
            _ => false,
        }
    }

    /// An equal element.
    pub fn copy(&self) -> (r: QueryShowElement)
        ensures
            r@ == self@,
    {
        match self {
            QueryShowElement::All => QueryShowElement::All,
            QueryShowElement::Symbol(s) => QueryShowElement::Symbol(copy_bytes(s.as_slice())),
            QueryShowElement::Reducer(r, s) => QueryShowElement::Reducer(
                *r,
                copy_bytes(s.as_slice()),
            ),
        }
    }
}

impl QueryReducer {
    /// The name of the reducer as it is written in a query.
    pub open spec fn label(self) -> Seq<u8> {
        match self {
            QueryReducer::Count => ascii("count"),
            QueryReducer::Sum => ascii("sum"),
            QueryReducer::Max => ascii("max"),
            QueryReducer::Avg => ascii("avg"),
        }
    }

    pub fn to_string(&self) -> (r: Vec<u8>)
        ensures
            r@ == self.label(),
    {
        proof {
            reveal_strlit("count");
            reveal_strlit("sum");
            reveal_strlit("max");
            reveal_strlit("avg");
        }
        match self {
            QueryReducer::Count => ascii_bytes("count"),
            QueryReducer::Sum => ascii_bytes("sum"),
            QueryReducer::Max => ascii_bytes("max"),
            QueryReducer::Avg => ascii_bytes("avg"),
        }
    }
}

#[derive(Debug, Clone)]
pub struct QueryShow {
    pub elements: Vec<QueryShowElement>,
}

impl View for QueryShow {
    type V = Seq<ShowSpec>;

    open spec fn view(&self) -> Seq<ShowSpec> {
        self.elements@.map_values(|e: QueryShowElement| e@)
    }
}

#[derive(Debug, Clone)]
pub struct QuerySortElement {
    pub field: Vec<u8>,
    pub order: QuerySortOrdering,
}

/// A `QuerySortElement` as a plain value.
pub struct SortSpec {
    pub field: Seq<u8>,
    pub order: QuerySortOrdering,
}

impl View for QuerySortElement {
    type V = SortSpec;

    open spec fn view(&self) -> SortSpec {
        SortSpec { field: self.field@, order: self.order }
    }
}

impl QuerySortOrdering {
    /// The direction that a word names: descending for `desc`, read
    /// without regard to case, and ascending for any other word.
    pub open spec fn named(order: Seq<u8>) -> QuerySortOrdering {
        if lowered(order) == ascii("desc") {
            QuerySortOrdering::DESC
        } else {
            QuerySortOrdering::ASC
        }
    }

    pub fn from_string(order: &[u8]) -> (r: QuerySortOrdering)
        ensures
            r == QuerySortOrdering::named(order@),
    {
        proof {
            reveal_strlit("desc");
        }
        assert(order@.subrange(0, order@.len() as int) =~= order@);
        if word_is(order, 0, order.len(), "desc") {
            QuerySortOrdering::DESC
        } else {
            QuerySortOrdering::ASC
        }
    }
}

impl QuerySortElement {
    /// A sort on `field`, in the direction that `order` names; ascending
    /// where there is no `order`.
    pub fn new(field: Vec<u8>, order: Option<Vec<u8>>) -> (r: QuerySortElement)
        ensures
            r@.field == field@,
            r@.order == (match order {
                Some(o) => QuerySortOrdering::named(o@),
                None => QuerySortOrdering::ASC,
            }),
    {
        match order {
            Some(o) => QuerySortElement { field, order: QuerySortOrdering::from_string(o.as_slice()) },
            None => QuerySortElement { field, order: QuerySortOrdering::ASC },
        }
    }
}

#[derive(Debug, Clone)]
pub struct QuerySort {
    pub sortings: Vec<QuerySortElement>,
}

impl View for QuerySort {
    type V = Seq<SortSpec>;

    open spec fn view(&self) -> Seq<SortSpec> {
        self.sortings@.map_values(|e: QuerySortElement| e@)
    }
}

#[derive(Debug, Clone)]
pub struct QueryLimit {
    pub limit: usize,
}

#[derive(Debug)]
pub struct RipLogQuery {
    pub filter: Option<QueryFilter>,
    pub grouping: Option<QueryGrouping>,
    pub show: Option<QueryShow>,
    pub sort: Option<QuerySort>,
    pub limit: Option<QueryLimit>,
    pub computed_show: Option<QueryShow>,
}

/// A `RipLogQuery` as a plain value.
pub struct QuerySpec {
    pub filter: Option<FilterSpec>,
    pub grouping: Option<Seq<Seq<u8>>>,
    pub show: Option<Seq<ShowSpec>>,
    pub sort: Option<Seq<SortSpec>>,
    pub limit: Option<usize>,
    pub computed_show: Option<Seq<ShowSpec>>,
}

impl View for RipLogQuery {
    type V = QuerySpec;

    open spec fn view(&self) -> QuerySpec {
        QuerySpec {
            filter: match self.filter {
                Some(f) => Some(f@),
                None => None,
            },
            grouping: match self.grouping {
                Some(g) => Some(g@),
                None => None,
            },
            show: match self.show {
                Some(s) => Some(s@),
                None => None,
            },
            sort: match self.sort {
                Some(s) => Some(s@),
                None => None,
            },
            limit: match self.limit {
                Some(l) => Some(l.limit),
                None => None,
            },
            computed_show: match self.computed_show {
                Some(s) => Some(s@),
                None => None,
            },
        }
    }
}

/// The projection `count(*)`.
pub open spec fn count_star() -> ShowSpec {
    ShowSpec::Reducer(QueryReducer::Count, ascii("*"))
}

/// A projection of plain columns, one for each name.
pub open spec fn symbols_of(names: Seq<Seq<u8>>) -> Seq<ShowSpec> {
    names.map_values(|n: Seq<u8>| ShowSpec::Symbol(n))
}

/// The names of the columns of a schema, in order.
pub open spec fn column_names(columns: Seq<ColumnSpec>) -> Seq<Seq<u8>> {
    columns.map_values(|c: ColumnSpec| c.name)
}

/// The test that keeps the reducers of a projection.
pub open spec fn keeps_reducer() -> spec_fn(ShowSpec) -> bool {
    |e: ShowSpec| e is Reducer
}

/// The reducers of a projection, in order.
pub open spec fn reducers_of(show: Seq<ShowSpec>) -> Seq<ShowSpec> {
    show.filter(keeps_reducer())
}

pub open spec fn has_reducer(show: Seq<ShowSpec>) -> bool {
    exists|i: int| 0 <= i < show.len() && #[trigger] show[i] is Reducer
}

pub open spec fn has_star(show: Seq<ShowSpec>) -> bool {
    exists|i: int| 0 <= i < show.len() && #[trigger] show[i] is All
}

/// The projection that a query is evaluated with.
///
/// Without a `show`: the grouping columns and `count(*)`, or every column
/// of the schema where nothing is grouped.  With one that holds a reducer:
/// the grouping columns, if any, and then its reducers, its plain columns
/// dropped.  With one that holds `*` and no reducer: what an absent `show`
/// gives.  With plain columns only: the `show` as it is written.
pub open spec fn computed_show(
    show: Option<Seq<ShowSpec>>,
    grouping: Option<Seq<Seq<u8>>>,
    columns: Seq<ColumnSpec>,
) -> Seq<ShowSpec> {
    let written = match show {
        Some(s) => s,
        None => seq![ShowSpec::All],
    };
    let groups = match grouping {
        Some(g) => symbols_of(g),
        None => Seq::empty(),
    };
    if has_reducer(written) {
        groups + reducers_of(written)
    } else if has_star(written) {
        if grouping is Some {
            groups.push(count_star())
        } else {
            symbols_of(column_names(columns))
        }
    } else {
        written
    }
}

/// A query is an aggregate when it groups, or when the projection it is
/// evaluated with holds a reducer.
pub open spec fn is_aggregate(q: QuerySpec) -> bool {
    q.grouping is Some || (q.computed_show matches Some(s) && has_reducer(s))
}

/// A projection without reducers has none to keep.
pub proof fn lemma_no_reducers(show: Seq<ShowSpec>)
    requires
        !has_reducer(show),
    ensures
        reducers_of(show) == Seq::<ShowSpec>::empty(),
    decreases show.len(),
{
    reveal(Seq::filter);
    if show.len() > 0 {
        let front = show.drop_last();
        assert(!(show[show.len() - 1] is Reducer));
        assert forall|i: int| 0 <= i < front.len() implies !(#[trigger] front[i] is Reducer) by {
            assert(front[i] == show[i]);
        }
        lemma_no_reducers(front);
    }
}

/// A projection of reducers only keeps all of itself.
pub proof fn lemma_all_reducers(show: Seq<ShowSpec>)
    requires
        forall|i: int| 0 <= i < show.len() ==> #[trigger] show[i] is Reducer,
    ensures
        reducers_of(show) == show,
    decreases show.len(),
{
    reveal(Seq::filter);
    if show.len() > 0 {
        let front = show.drop_last();
        assert forall|i: int| 0 <= i < front.len() implies #[trigger] front[i] is Reducer by {
            assert(front[i] == show[i]);
        }
        lemma_all_reducers(front);
        assert(show[show.len() - 1] is Reducer);
        assert(front.push(show.last()) =~= show);
    }
}

/// What `reducers_of` keeps are reducers, and it keeps one where there is
/// one.
pub proof fn lemma_reducers_of(show: Seq<ShowSpec>)
    ensures
        forall|i: int| 0 <= i < reducers_of(show).len() ==> #[trigger] reducers_of(show)[i] is Reducer,
        has_reducer(show) <==> reducers_of(show).len() > 0,
    decreases show.len(),
{
    reveal(Seq::filter);
    if show.len() > 0 {
        let front = show.drop_last();
        lemma_reducers_of(front);
        if has_reducer(show) {
            let k = choose|k: int| 0 <= k < show.len() && #[trigger] show[k] is Reducer;
            if k < front.len() {
                assert(front[k] is Reducer);
            }
        }
        if has_reducer(front) {
            let k = choose|k: int| 0 <= k < front.len() && #[trigger] front[k] is Reducer;
            assert(show[k] is Reducer);
        }
        if show.last() is Reducer {
            assert(show[show.len() - 1] is Reducer);
        }
    }
}

/// The projection that a query is evaluated with is its own: evaluating a
/// query that shows it gives it again.
pub proof fn lemma_computed_show_idempotent(
    show: Option<Seq<ShowSpec>>,
    grouping: Option<Seq<Seq<u8>>>,
    columns: Seq<ColumnSpec>,
)
    ensures
        computed_show(Some(computed_show(show, grouping, columns)), grouping, columns)
            == computed_show(show, grouping, columns),
{
    let written = match show {
        Some(s) => s,
        None => seq![ShowSpec::All],
    };
    let groups = match grouping {
        Some(g) => symbols_of(g),
        None => Seq::empty(),
    };
    let first = computed_show(show, grouping, columns);
    assert(!has_reducer(groups) && !has_star(groups));
    lemma_no_reducers(groups);
    if has_reducer(written) {
        let kept = reducers_of(written);
        lemma_reducers_of(written);
        lemma_all_reducers(kept);
        Seq::filter_distributes_over_add(groups, kept, keeps_reducer());
        assert(first[groups.len() as int] == kept[0]);
        assert(has_reducer(first));
        assert(groups + (Seq::<ShowSpec>::empty() + kept) =~= first);
    } else if has_star(written) {
        if grouping is Some {
            let last = seq![count_star()];
            assert(first =~= groups + last);
            lemma_all_reducers(last);
            Seq::filter_distributes_over_add(groups, last, keeps_reducer());
            assert(first[groups.len() as int] is Reducer);
            assert(has_reducer(first));
            assert(groups + (Seq::<ShowSpec>::empty() + last) =~= first);
        } else {
            assert(!has_reducer(first) && !has_star(first));
        }
    }
}

/// `true` when `show` holds a reducer.
pub fn holds_reducer(show: &Vec<QueryShowElement>) -> (r: bool)
    ensures
        r == has_reducer(show@.map_values(|e: QueryShowElement| e@)),
{
    let ghost view = show@.map_values(|e: QueryShowElement| e@);
    let mut i: usize = 0;
    while i < show.len()
        invariant
            i <= show@.len(),
            view == show@.map_values(|e: QueryShowElement| e@),
            forall|j: int| 0 <= j < i ==> !(#[trigger] view[j] is Reducer),
        decreases show@.len() - i,
    {
        if show[i].is_reducer() {
            assert(view[i as int] is Reducer);
            return true;
        }
        i += 1;
    }
    false
}

/// `true` when `show` holds `*`.
pub fn holds_star(show: &Vec<QueryShowElement>) -> (r: bool)
    ensures
        r == has_star(show@.map_values(|e: QueryShowElement| e@)),
{
    let ghost view = show@.map_values(|e: QueryShowElement| e@);
    let mut i: usize = 0;
    while i < show.len()
        invariant
            i <= show@.len(),
            view == show@.map_values(|e: QueryShowElement| e@),
            forall|j: int| 0 <= j < i ==> !(#[trigger] view[j] is All),
        decreases show@.len() - i,
    {
        if show[i].is_star() {
            assert(view[i as int] is All);
            return true;
        }
        i += 1;
    }
    false
}

impl QueryShow {
    /// Appends one element.
    pub fn push(&mut self, element: QueryShowElement)
        ensures
            final(self)@ == old(self)@.push(element@),
    {
        self.elements.push(element);
        assert(self@ =~= old(self)@.push(element@));
    }
}

/// Appends a plain column for each of `names`.
fn push_symbols(out: &mut QueryShow, names: &Vec<Vec<u8>>)
    ensures
        final(out)@ == old(out)@ + symbols_of(names@.map_values(|g: Vec<u8>| g@)),
{
    let ghost target = symbols_of(names@.map_values(|g: Vec<u8>| g@));
    let mut i: usize = 0;
    while i < names.len()
        invariant
            i <= names@.len(),
            target == symbols_of(names@.map_values(|g: Vec<u8>| g@)),
            out@ == old(out)@ + target.subrange(0, i as int),
        decreases names@.len() - i,
    {
        out.push(QueryShowElement::Symbol(copy_bytes(names[i].as_slice())));
        i += 1;
        assert(out@ =~= old(out)@ + target.subrange(0, i as int));
    }
    assert(target.subrange(0, i as int) =~= target);
}

/// Appends a plain column for each column of the schema.
fn push_columns(out: &mut QueryShow, definition: &TableDefinition)
    ensures
        final(out)@ == old(out)@ + symbols_of(column_names(definition@)),
{
    let ghost target = symbols_of(column_names(definition@));
    let mut i: usize = 0;
    while i < definition.columns.len()
        invariant
            i <= definition.columns@.len(),
            target == symbols_of(column_names(definition@)),
            out@ == old(out)@ + target.subrange(0, i as int),
        decreases definition.columns@.len() - i,
    {
        out.push(QueryShowElement::Symbol(copy_bytes(definition.columns[i].name().as_slice())));
        i += 1;
        assert(out@ =~= old(out)@ + target.subrange(0, i as int));
    }
    assert(target.subrange(0, i as int) =~= target);
}

/// Appends the reducers of `written`.
fn push_reducers(out: &mut QueryShow, written: &Vec<QueryShowElement>)
    ensures
        final(out)@ == old(out)@ + reducers_of(written@.map_values(|e: QueryShowElement| e@)),
{
    let ghost view = written@.map_values(|e: QueryShowElement| e@);
    let mut i: usize = 0;
    proof {
        reveal(Seq::filter);
        assert(view.subrange(0, 0) =~= Seq::<ShowSpec>::empty());
        assert(out@ =~= old(out)@ + reducers_of(view.subrange(0, 0)));
    }
    while i < written.len()
        invariant
            i <= written@.len(),
            view == written@.map_values(|e: QueryShowElement| e@),
            out@ == old(out)@ + reducers_of(view.subrange(0, i as int)),
        decreases written@.len() - i,
    {
        proof {
            reveal(Seq::filter);
            let next = view.subrange(0, i + 1);
            assert(next.drop_last() =~= view.subrange(0, i as int));
            assert(next.last() == view[i as int]);
        }
        if written[i].is_reducer() {
            out.push(written[i].copy());
        }
        i += 1;
        assert(out@ =~= old(out)@ + reducers_of(view.subrange(0, i as int)));
    }
    assert(view.subrange(0, i as int) =~= view);
}

/// Appends a copy of every element of `written`.
fn push_all(out: &mut QueryShow, written: &Vec<QueryShowElement>)
    ensures
        final(out)@ == old(out)@ + written@.map_values(|e: QueryShowElement| e@),
{
    let ghost view = written@.map_values(|e: QueryShowElement| e@);
    let mut i: usize = 0;
    while i < written.len()
        invariant
            i <= written@.len(),
            view == written@.map_values(|e: QueryShowElement| e@),
            out@ == old(out)@ + view.subrange(0, i as int),
        decreases written@.len() - i,
    {
        out.push(written[i].copy());
        i += 1;
        assert(out@ =~= old(out)@ + view.subrange(0, i as int));
    }
    assert(view.subrange(0, i as int) =~= view);
}

impl RipLogQuery {
    /// Works out the projection that the query is evaluated with and
    /// stores it in `computed_show`.  Nothing else changes.
    pub fn compute_show(&mut self, definition: &TableDefinition)
        ensures
            final(self)@ == (QuerySpec {
                computed_show: Some(
                    computed_show(old(self)@.show, old(self)@.grouping, definition@),
                ),
                ..old(self)@
            }),
    {
        proof {
            reveal_strlit("*");
        }
        let mut star: Vec<QueryShowElement> = Vec::new();
        star.push(QueryShowElement::All);
        let written: &Vec<QueryShowElement> = match &self.show {
            Some(s) => &s.elements,
            None => &star,
        };
        let ghost view = written@.map_values(|e: QueryShowElement| e@);
        assert(self@.show is None ==> view =~= seq![ShowSpec::All]);
        let mut out = QueryShow { elements: Vec::new() };
        assert(out@ =~= Seq::<ShowSpec>::empty());
        if holds_reducer(written) {
            match &self.grouping {
                Some(g) => {
                    push_symbols(&mut out, &g.groupings);
                },
                None => {},
            }
            push_reducers(&mut out, written);
        } else if holds_star(written) {
            match &self.grouping {
                Some(g) => {
                    push_symbols(&mut out, &g.groupings);
                    out.push(QueryShowElement::Reducer(QueryReducer::Count, ascii_bytes("*")));
                },
                None => {
                    push_columns(&mut out, definition);
                },
            }
        } else {
            push_all(&mut out, written);
        }
        assert(out@ =~= computed_show(self@.show, self@.grouping, definition@));
        self.computed_show = Some(out);
    }
}

} // verus!
