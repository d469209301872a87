//! The order in which the groups of an aggregate are shown.
use std::cmp::Ordering;
use vstd::prelude::*;
use crate::format::key_part;
use crate::format::result_part;
use crate::format::FieldSpec;
use crate::format::FormatterSpec;
use crate::format::GroupOutputField;
use crate::format::OutputField;
use crate::format::RecordFormatter;
use crate::format::ReducedOutputField;
use crate::format::SymbolOutputField;
use crate::parser::QuerySortOrdering;
use crate::reduce::groups_of;
use crate::reduce::results_of;
use crate::text::views_of;
use crate::reduce::Group;
use crate::reduce::GroupSpec;
use crate::reduce::Reducer;
use crate::text::bytes_less;
use crate::text::lemma_lex_asymmetric;
use crate::text::lemma_lex_le_transitive;
use crate::text::lex_less;

verus! {

/// How two texts stand in lexicographic order: `-1`, `0` or `1` as the
/// first comes before, is, or comes after the second.
pub open spec fn bytes_rank(a: Seq<u8>, b: Seq<u8>) -> int {
    if lex_less(a, b) {
        -1
    } else if lex_less(b, a) {
        1
    } else {
        0
    }
}

/// How two numbers stand: `-1`, `0` or `1`.
pub open spec fn number_rank(a: u64, b: u64) -> int {
    if a < b {
        -1
    } else if a > b {
        1
    } else {
        0
    }
}

/// A rank as it is, or turned around for a descending sort.
pub open spec fn directed(rank: int, desc: bool) -> int {
    if desc {
        -rank
    } else {
        rank
    }
}

/// How two texts that may be absent stand: an absent one comes first.
pub open spec fn text_rank(a: Option<Seq<u8>>, b: Option<Seq<u8>>) -> int {
    match (a, b) {
        (Some(x), Some(y)) => bytes_rank(x, y),
        (Some(_), None) => 1,
        (None, Some(_)) => -1,
        (None, None) => 0,
    }
}

/// How two numbers that may be absent stand: an absent one comes first.
pub open spec fn value_rank(a: Option<u64>, b: Option<u64>) -> int {
    match (a, b) {
        (Some(x), Some(y)) => number_rank(x, y),
        (Some(_), None) => 1,
        (None, Some(_)) => -1,
        (None, None) => 0,
    }
}

/// How two groups stand by one column of the table: by the part of the key
/// that the column shows, as text, or by what the reducer that it shows
/// reports, as a number.  A column of the record tells no groups apart.
pub open spec fn field_rank(f: FieldSpec, a: GroupSpec, b: GroupSpec) -> int {
    match f {
        FieldSpec::Symbol { .. } => 0,
        FieldSpec::Group { idx, .. } => text_rank(key_part(a.key, idx), key_part(b.key, idx)),
        FieldSpec::Reduced { idx, .. } => value_rank(
            result_part(results_of(a.reducers), idx),
            result_part(results_of(b.reducers), idx),
        ),
    }
}

/// How two groups stand in the order of the query: negative, zero or
/// positive as the first is shown before, in no fixed order with, or after
/// the second.
pub open spec fn group_rank(sort: Option<(FieldSpec, QuerySortOrdering)>, a: GroupSpec, b: GroupSpec) -> int {
    match sort {
        Some((f, order)) => directed(field_rank(f, a, b), order == QuerySortOrdering::DESC),
        None => 0,
    }
}

/// The number that stands for an `Ordering`.
pub open spec fn rank_of(o: Ordering) -> int {
    match o {
        Ordering::Less => -1,
        Ordering::Equal => 0,
        Ordering::Greater => 1,
    }
}

/// The part of an optional group key at `idx`.
pub open spec fn opt_key_part(key: Option<&Vec<Vec<u8>>>, idx: usize) -> Option<Seq<u8>> {
    match key {
        Some(k) => key_part(views_of(k@), idx),
        None => None,
    }
}

/// What the reducer at `idx` of an optional vector reports.
pub open spec fn opt_result_part(reducer: Option<&Reducer>, idx: usize) -> Option<u64> {
    match reducer {
        Some(r) => result_part(results_of(r@), idx),
        None => None,
    }
}

/// The opposite of an `Ordering` where `desc`, the `Ordering` itself
/// otherwise.
fn direct(order: Ordering, desc: bool) -> (r: Ordering)
    ensures
        rank_of(r) == directed(rank_of(order), desc),
{
    if desc {
        match order {
            Ordering::Less => Ordering::Greater,
            Ordering::Equal => Ordering::Equal,
            Ordering::Greater => Ordering::Less,
        }
    } else {
        order
    }
}

impl SymbolOutputField {
    /// A column of the record tells no groups apart.
    pub fn compare(&self) -> (r: Ordering)
        ensures
            rank_of(r) == 0,
    {
        Ordering::Equal
    }
}

impl GroupOutputField {
    /// How two groups stand by the part of the key that this column shows.
    pub fn compare(
        &self,
        group_key1: Option<&Vec<Vec<u8>>>,
        group_key2: Option<&Vec<Vec<u8>>>,
        desc: bool,
    ) -> (r: Ordering)
        ensures
            rank_of(r) == directed(
                text_rank(opt_key_part(group_key1, self.idx), opt_key_part(group_key2, self.idx)),
                desc,
            ),
    {
        let value1: Option<&Vec<u8>> = match group_key1 {
            Some(key) => if self.idx < key.len() {
                Some(&key[self.idx])
            } else {
                None
            },
            None => None,
        };
        let value2: Option<&Vec<u8>> = match group_key2 {
            Some(key) => if self.idx < key.len() {
                Some(&key[self.idx])
            } else {
                None
            },
            None => None,
        };
        match (value1, value2) {
            (Some(a), Some(b)) => {
                let order = if bytes_less(a.as_slice(), b.as_slice()) {
                    Ordering::Less
                } else if bytes_less(b.as_slice(), a.as_slice()) {
                    Ordering::Greater
                } else {
                    Ordering::Equal
                };
                direct(order, desc)
            },
            (Some(_), None) => direct(Ordering::Greater, desc),
            (None, Some(_)) => direct(Ordering::Less, desc),
            (None, None) => Ordering::Equal,
        }
    }
}

impl ReducedOutputField {
    /// How two groups stand by what the reducer that this column shows
    /// reports.
    pub fn compare(&self, reducer1: Option<&Reducer>, reducer2: Option<&Reducer>, desc: bool) -> (r:
        Ordering)
        ensures
            rank_of(r) == directed(
                value_rank(opt_result_part(reducer1, self.idx), opt_result_part(reducer2, self.idx)),
                desc,
            ),
    {
        let value1: Option<u64> = match reducer1 {
            Some(r) => r.result_at(self.idx),
            None => None,
        };
        let value2: Option<u64> = match reducer2 {
            Some(r) => r.result_at(self.idx),
            None => None,
        };
        match (value1, value2) {
            (Some(a), Some(b)) => {
                let order = if a < b {
                    Ordering::Less
                } else if a > b {
                    Ordering::Greater
                } else {
                    Ordering::Equal
                };
                direct(order, desc)
            },
            (Some(_), None) => direct(Ordering::Greater, desc),
            (None, Some(_)) => direct(Ordering::Less, desc),
            (None, None) => Ordering::Equal,
        }
    }
}

/// The group with the given key and reducers.
pub open spec fn group_of(key: &Vec<Vec<u8>>, reducer: &Reducer) -> GroupSpec {
    GroupSpec { key: views_of(key@), reducers: reducer@ }
}

impl OutputField {
    /// How two groups stand by this column.
    pub fn compare(
        &self,
        key1: &Vec<Vec<u8>>,
        reducer1: &Reducer,
        key2: &Vec<Vec<u8>>,
        reducer2: &Reducer,
        desc: bool,
    ) -> (r: Ordering)
        ensures
            rank_of(r) == directed(
                field_rank(self@, group_of(key1, reducer1), group_of(key2, reducer2)),
                desc,
            ),
    {
        match self {
            OutputField::Symbol(f) => f.compare(),
            OutputField::Group(f) => f.compare(Some(key1), Some(key2), desc),
            OutputField::Reduced(f) => f.compare(Some(reducer1), Some(reducer2), desc),
        }
    }
}

impl RecordFormatter {
    /// How two groups stand in the order of the query.
    pub fn sort_grouped(
        &self,
        key1: &Vec<Vec<u8>>,
        reducer1: &Reducer,
        key2: &Vec<Vec<u8>>,
        reducer2: &Reducer,
    ) -> (r: Ordering)
        ensures
            rank_of(r) == group_rank(
                self@.sort,
                group_of(key1, reducer1),
                group_of(key2, reducer2),
            ),
    {
        match &self.sort {
            Some((field, QuerySortOrdering::ASC)) => field.compare(
                key1,
                reducer1,
                key2,
                reducer2,
                false,
            ),
            Some((field, QuerySortOrdering::DESC)) => field.compare(
                key1,
                reducer1,
                key2,
                reducer2,
                true,
            ),
            None => Ordering::Equal,
        }
    }

    /// `true` unless the first group is to be shown after the second.
    pub fn in_order(&self, first: &Group, second: &Group) -> (r: bool)
        ensures
            r == (group_rank(self@.sort, first@, second@) <= 0),
    {
        match self.sort_grouped(&first.key, &first.reducer, &second.key, &second.reducer) {
            Ordering::Greater => false,
            _ => true,
        }
    }
}

/// Turning two groups around turns their rank around.
pub proof fn lemma_rank_flip(sort: Option<(FieldSpec, QuerySortOrdering)>, a: GroupSpec, b: GroupSpec)
    ensures
        group_rank(sort, b, a) == -group_rank(sort, a, b),
{
    match sort {
        Some((f, _)) => match f {
            FieldSpec::Group { idx, .. } => {
                match (key_part(a.key, idx), key_part(b.key, idx)) {
                    (Some(x), Some(y)) => {
                        lemma_lex_asymmetric(x, y);
                    },
                    _ => {},
                }
            },
            _ => {},
        },
        None => {},
    }
}

/// Being in order carries over: if `a` is not after `b` and `b` is not
/// after `c`, then `a` is not after `c`.
pub proof fn lemma_rank_transitive(
    sort: Option<(FieldSpec, QuerySortOrdering)>,
    a: GroupSpec,
    b: GroupSpec,
    c: GroupSpec,
)
    requires
        group_rank(sort, a, b) <= 0,
        group_rank(sort, b, c) <= 0,
    ensures
        group_rank(sort, a, c) <= 0,
{
    match sort {
        Some((f, order)) => match f {
            FieldSpec::Group { idx, .. } => {
                match (key_part(a.key, idx), key_part(b.key, idx), key_part(c.key, idx)) {
                    (Some(x), Some(y), Some(z)) => {
                        lemma_lex_asymmetric(x, y);
                        lemma_lex_asymmetric(y, z);
                        lemma_lex_asymmetric(x, z);
                        if order == QuerySortOrdering::DESC {
                            lemma_lex_le_transitive(z, y, x);
                        } else {
                            lemma_lex_le_transitive(x, y, z);
                        }
                    },
                    _ => {},
                }
            },
            _ => {},
        },
        None => {},
    }
}

/// `order` lists each of the positions `0..n` once.
pub open spec fn is_arrangement(order: Seq<usize>, n: nat) -> bool {
    &&& order.len() == n
    &&& forall|i: int| 0 <= i < order.len() ==> (#[trigger] order[i]) < n
    &&& forall|i: int, j: int| 0 <= i < j < order.len() ==> #[trigger] order[i] != #[trigger] order[j]
}

/// The groups at the first `upto` positions of `order` are in order: none
/// is to be shown after one that follows it.
pub open spec fn ordered_upto(
    order: Seq<usize>,
    groups: Seq<GroupSpec>,
    sort: Option<(FieldSpec, QuerySortOrdering)>,
    upto: int,
) -> bool {
    forall|i: int, j: int|
        0 <= i < j < upto ==> group_rank(
            sort,
            groups[(#[trigger] order[i]) as int],
            groups[(#[trigger] order[j]) as int],
        ) <= 0
}

/// `order` is an order in which the query allows the groups to be shown:
/// each group once, and none after one that follows it.  Without a sort
/// the groups keep the order in which they were first seen.
pub open spec fn is_group_order(order: Seq<usize>, groups: Seq<GroupSpec>, f: FormatterSpec) -> bool {
    &&& is_arrangement(order, groups.len())
    &&& ordered_upto(order, groups, f.sort, order.len() as int)
    &&& f.sort is None ==> forall|i: int| 0 <= i < order.len() ==> (#[trigger] order[i]) == i
}

/// The positions `0..n`, in order.
fn identity_order(n: usize) -> (order: Vec<usize>)
    ensures
        order@.len() == n,
        forall|i: int| 0 <= i < n ==> (#[trigger] order@[i]) == i,
{
    let mut order: Vec<usize> = Vec::new();
    let mut i: usize = 0;
    while i < n
        invariant
            i <= n,
            order@.len() == i,
            forall|k: int| 0 <= k < i ==> (#[trigger] order@[k]) == k,
        decreases n - i,
    {
        order.push(i);
        i += 1;
    }
    order
}

/// Every position that `order` lists is one of `n` groups.
pub open spec fn within(order: Seq<usize>, n: nat) -> bool {
    forall|i: int| 0 <= i < order.len() ==> (#[trigger] order[i]) < n
}

/// The groups at the positions `order` are in order.
pub open spec fn ordered(
    order: Seq<usize>,
    groups: Seq<GroupSpec>,
    sort: Option<(FieldSpec, QuerySortOrdering)>,
) -> bool {
    ordered_upto(order, groups, sort, order.len() as int)
}

/// Merges two lists of positions, each in order, into one that is in
/// order and lists what the two list.
fn merge_orders(
    formatter: &RecordFormatter,
    groups: &Vec<Group>,
    left: &Vec<usize>,
    right: &Vec<usize>,
) -> (out: Vec<usize>)
    requires
        within(left@, groups@.len()),
        within(right@, groups@.len()),
        ordered(left@, groups_of(groups@), formatter@.sort),
        ordered(right@, groups_of(groups@), formatter@.sort),
    ensures
        within(out@, groups@.len()),
        ordered(out@, groups_of(groups@), formatter@.sort),
        out@.to_multiset() == left@.to_multiset().add(right@.to_multiset()),
{
    broadcast use {
        vstd::multiset::group_multiset_axioms,
        vstd::seq_lib::group_to_multiset_ensures,
    };

    let ghost rows = groups_of(groups@);
    let ghost sort = formatter@.sort;
    let n = left.len();
    let m = right.len();
    let mut out: Vec<usize> = Vec::new();
    let mut i: usize = 0;
    let mut j: usize = 0;
    assert(left@.subrange(0, 0) =~= Seq::<usize>::empty());
    assert(right@.subrange(0, 0) =~= Seq::<usize>::empty());
    assert(out@ =~= Seq::<usize>::empty());
    assert(Seq::<usize>::empty().to_multiset().len() == 0);
    assert(out@.to_multiset() =~= left@.subrange(0, 0).to_multiset().add(
        right@.subrange(0, 0).to_multiset(),
    ));
    while i < n || j < m
        invariant
            i <= n,
            j <= m,
            n == left@.len(),
            m == right@.len(),
            rows == groups_of(groups@),
            sort == formatter@.sort,
            within(left@, groups@.len()),
            within(right@, groups@.len()),
            ordered(left@, rows, sort),
            ordered(right@, rows, sort),
            within(out@, groups@.len()),
            ordered(out@, rows, sort),
            out@.to_multiset() == left@.subrange(0, i as int).to_multiset().add(
                right@.subrange(0, j as int).to_multiset(),
            ),
            forall|k: int, p: int|
                0 <= k < out@.len() && i <= p < n ==> group_rank(
                    sort,
                    rows[(#[trigger] out@[k]) as int],
                    rows[(#[trigger] left@[p]) as int],
                ) <= 0,
            forall|k: int, p: int|
                0 <= k < out@.len() && j <= p < m ==> group_rank(
                    sort,
                    rows[(#[trigger] out@[k]) as int],
                    rows[(#[trigger] right@[p]) as int],
                ) <= 0,
        decreases (n - i) + (m - j),
    {
        let from_left = if i >= n {
            false
        } else if j >= m {
            true
        } else {
            formatter.in_order(&groups[left[i]], &groups[right[j]])
        };
        let ghost before = out@;
        if from_left {
            let x = left[i];
            proof {
                assert(left@.subrange(0, i + 1) =~= left@.subrange(0, i as int).push(x));
                assert forall|p: int| j <= p < m implies group_rank(
                    sort,
                    rows[x as int],
                    rows[(#[trigger] right@[p]) as int],
                ) <= 0 by {
                    if p > j {
                        lemma_rank_transitive(
                            sort,
                            rows[x as int],
                            rows[right@[j as int] as int],
                            rows[right@[p] as int],
                        );
                    }
                }
                assert forall|p: int| i + 1 <= p < n implies group_rank(
                    sort,
                    rows[x as int],
                    rows[(#[trigger] left@[p]) as int],
                ) <= 0 by {
                    assert(left@[i as int] == x);
                }
            }
            out.push(x);
            i += 1;
            proof {
                assert(out@ =~= before.push(x));
                vstd::seq_lib::to_multiset_build(before, x);
                vstd::seq_lib::to_multiset_build(left@.subrange(0, i - 1), x);
                assert(out@.to_multiset() =~= left@.subrange(0, i as int).to_multiset().add(
                    right@.subrange(0, j as int).to_multiset(),
                ));
            }
        } else {
            let x = right[j];
            proof {
                assert(right@.subrange(0, j + 1) =~= right@.subrange(0, j as int).push(x));
                if i < n {
                    lemma_rank_flip(sort, rows[left@[i as int] as int], rows[x as int]);
                }
                assert forall|p: int| i <= p < n implies group_rank(
                    sort,
                    rows[x as int],
                    rows[(#[trigger] left@[p]) as int],
                ) <= 0 by {
                    if p > i {
                        lemma_rank_transitive(
                            sort,
                            rows[x as int],
                            rows[left@[i as int] as int],
                            rows[left@[p] as int],
                        );
                    }
                }
                assert forall|p: int| j + 1 <= p < m implies group_rank(
                    sort,
                    rows[x as int],
                    rows[(#[trigger] right@[p]) as int],
                ) <= 0 by {
                    assert(right@[j as int] == x);
                }
            }
            out.push(x);
            j += 1;
            proof {
                assert(out@ =~= before.push(x));
                vstd::seq_lib::to_multiset_build(before, x);
                vstd::seq_lib::to_multiset_build(right@.subrange(0, j - 1), x);
                assert(out@.to_multiset() =~= left@.subrange(0, i as int).to_multiset().add(
                    right@.subrange(0, j as int).to_multiset(),
                ));
            }
        }
    }
    assert(left@.subrange(0, n as int) =~= left@);
    assert(right@.subrange(0, m as int) =~= right@);
    out
}

/// The positions `order[from..to]`, put in order by merge sort.
fn sort_range(
    formatter: &RecordFormatter,
    groups: &Vec<Group>,
    order: &Vec<usize>,
    from: usize,
    to: usize,
) -> (out: Vec<usize>)
    requires
        from <= to <= order@.len(),
        within(order@, groups@.len()),
    ensures
        within(out@, groups@.len()),
        ordered(out@, groups_of(groups@), formatter@.sort),
        out@.to_multiset() == order@.subrange(from as int, to as int).to_multiset(),
    decreases to - from,
{
    broadcast use vstd::seq_lib::group_to_multiset_ensures;

    if to - from <= 1 {
        let mut out: Vec<usize> = Vec::new();
        if to > from {
            out.push(order[from]);
        }
        assert(out@ =~= order@.subrange(from as int, to as int));
        out
    } else {
        let mid = from + (to - from) / 2;
        let left = sort_range(formatter, groups, order, from, mid);
        let right = sort_range(formatter, groups, order, mid, to);
        proof {
            let whole = order@.subrange(from as int, to as int);
            let a = order@.subrange(from as int, mid as int);
            let b = order@.subrange(mid as int, to as int);
            assert(whole =~= a + b);
            vstd::seq_lib::lemma_multiset_commutative(a, b);
        }
        merge_orders(formatter, groups, &left, &right)
    }
}

/// A list of positions that lists what the positions `0..n` in order
/// list is an arrangement of them.
proof fn lemma_arrangement(order: Seq<usize>, identity: Seq<usize>, n: nat)
    requires
        identity.len() == n,
        forall|i: int| 0 <= i < n ==> (#[trigger] identity[i]) == i,
        order.to_multiset() == identity.to_multiset(),
    ensures
        is_arrangement(order, n),
{
    broadcast use vstd::seq_lib::group_to_multiset_ensures;

    vstd::seq_lib::to_multiset_len(order);
    vstd::seq_lib::to_multiset_len(identity);
    assert(order.len() == n);
    assert(identity.no_duplicates());
    identity.lemma_multiset_has_no_duplicates();
    order.lemma_multiset_has_no_duplicates_conv();
    assert forall|i: int| 0 <= i < order.len() implies (#[trigger] order[i]) < n by {
        assert(order.contains(order[i]));
        assert(identity.to_multiset().count(order[i]) > 0);
        assert(identity.contains(order[i]));
        let k = choose|k: int| 0 <= k < identity.len() && identity[k] == order[i];
        assert(identity[k] == k);
    }
}

/// An order in which the query allows the groups to be shown.  Groups
/// that the sort does not tell apart come in no particular order.
pub fn sort_groups(formatter: &RecordFormatter, groups: &Vec<Group>) -> (order: Vec<usize>)
    ensures
        is_group_order(order@, groups_of(groups@), formatter@),
{
    let n = groups.len();
    let identity = identity_order(n);
    if !formatter.sortable() {
        return identity;
    }
    let order = sort_range(formatter, groups, &identity, 0, n);
    proof {
        assert(identity@.subrange(0, n as int) =~= identity@);
        lemma_arrangement(order@, identity@, n as nat);
    }
    order
}

} // verus!
