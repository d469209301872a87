//! Validation: every column that a query names must be one of the schema.
use vstd::prelude::*;
use crate::text::push_bytes;
use crate::parser::FilterSpec;
use crate::parser::QueryFilter;
use crate::parser::QueryGrouping;
use crate::parser::QueryReducer;
use crate::parser::QueryShow;
use crate::parser::QueryShowElement;
use crate::parser::QuerySort;
use crate::parser::QuerySpec;
use crate::parser::QueryValue;
use crate::parser::RipLogQuery;
use crate::parser::ShowSpec;
use crate::parser::ValueSpec;
use crate::reduce::STAR;
use crate::table::has_column;
use crate::table::ColumnSpec;
use crate::table::TableDefinition;
use crate::text::ascii;
use crate::text::ascii_bytes;

verus! {

/// A query names a column that the schema does not have.
#[derive(Debug, Clone)]
pub struct QueryValidationError {
    pub msg: Vec<u8>,
}

/// What the error says of the column `symbol`.
pub open spec fn unknown_symbol_message(symbol: Seq<u8>) -> Seq<u8> {
    ascii("Symbol '") + symbol + ascii("' is not a valid column")
}

/// The columns that an operand names: itself, if it is a symbol.
pub open spec fn operand_symbols(v: ValueSpec) -> Seq<Seq<u8>> {
    match v {
        ValueSpec::Symbol(s) => seq![s],
        _ => Seq::empty(),
    }
}

/// The columns that a filter names, from left to right.
pub open spec fn filter_symbols(f: FilterSpec) -> Seq<Seq<u8>>
    decreases f,
{
    match f {
        FilterSpec::BinaryOp(a, b, _) => operand_symbols(a) + operand_symbols(b),
        FilterSpec::And(l, r) => filter_symbols(*l) + filter_symbols(*r),
        FilterSpec::Or(l, r) => filter_symbols(*l) + filter_symbols(*r),
    }
}

/// The columns that one element of a projection names.  `count(*)` names
/// none; `*` under another reducer counts as a column, which no schema
/// has.
pub open spec fn element_symbols(e: ShowSpec) -> Seq<Seq<u8>> {
    match e {
        ShowSpec::All => Seq::empty(),
        ShowSpec::Symbol(s) => seq![s],
        ShowSpec::Reducer(kind, s) => if kind == QueryReducer::Count && s == ascii("*") {
            Seq::empty()
        } else {
            seq![s]
        },
    }
}

/// The columns that a projection names, in order.
pub open spec fn show_symbols(show: Seq<ShowSpec>) -> Seq<Seq<u8>>
    decreases show.len(),
{
    if show.len() == 0 {
        Seq::empty()
    } else {
        show_symbols(show.drop_last()) + element_symbols(show.last())
    }
}

/// The columns that a query names, in the order in which they are
/// checked: those of the filter, of the grouping, of the projection.  The
/// sort is not checked.
pub open spec fn query_symbols(q: QuerySpec) -> Seq<Seq<u8>> {
    (match q.filter {
        Some(f) => filter_symbols(f),
        None => Seq::empty(),
    }) + (match q.grouping {
        Some(g) => g,
        None => Seq::empty(),
    }) + (match q.show {
        Some(s) => show_symbols(s),
        None => Seq::empty(),
    })
}

/// The first of `symbols` that the schema does not have, if there is one.
pub open spec fn first_unknown(symbols: Seq<Seq<u8>>, columns: Seq<ColumnSpec>) -> Option<Seq<u8>>
    decreases symbols.len(),
{
    if symbols.len() == 0 {
        None
    } else if !has_column(columns, symbols[0]) {
        Some(symbols[0])
    } else {
        first_unknown(symbols.drop_first(), columns)
    }
}

/// The first unknown column of two lists on end is that of the first
/// list, or else that of the second.
pub proof fn lemma_first_unknown_concat(a: Seq<Seq<u8>>, b: Seq<Seq<u8>>, columns: Seq<ColumnSpec>)
    ensures
        first_unknown(a + b, columns) == (match first_unknown(a, columns) {
            Some(s) => Some(s),
            None => first_unknown(b, columns),
        }),
    decreases a.len(),
{
    if a.len() == 0 {
        assert(a + b =~= b);
    } else {
        assert((a + b)[0] == a[0]);
        assert((a + b).drop_first() =~= a.drop_first() + b);
        lemma_first_unknown_concat(a.drop_first(), b, columns);
    }
}

/// The outcome of a check of `symbols`: success when the schema has them
/// all, and otherwise the error that names the first it has not.
pub open spec fn checked(r: Result<(), QueryValidationError>, symbols: Seq<Seq<u8>>, columns: Seq<ColumnSpec>) -> bool {
    match r {
        Ok(_) => first_unknown(symbols, columns) is None,
        Err(e) => match first_unknown(symbols, columns) {
            Some(s) => e.msg@ == unknown_symbol_message(s),
            None => false,
        },
    }
}

/// The error that names `symbol`.
fn unknown_symbol(symbol: &[u8]) -> (e: QueryValidationError)
    ensures
        e.msg@ == unknown_symbol_message(symbol@),
{
    proof {
        reveal_strlit("Symbol '");
        reveal_strlit("' is not a valid column");
    }
    let mut msg = ascii_bytes("Symbol '");
    push_bytes(&mut msg, symbol);
    let tail = ascii_bytes("' is not a valid column");
    push_bytes(&mut msg, tail.as_slice());
    QueryValidationError { msg }
}

/// Checks that the schema has a column called `symbol`.
pub fn validate_symbol(symbol: &[u8], definition: &TableDefinition) -> (r: Result<
    (),
    QueryValidationError,
>)
    ensures
        checked(r, seq![symbol@], definition@),
{
    proof {
        reveal_with_fuel(first_unknown, 2);
        assert(seq![symbol@][0] == symbol@);
    }
    if definition.contains_key(symbol) {
        Ok(())
    } else {
        Err(unknown_symbol(symbol))
    }
}

/// Checks an operand of a comparison: a symbol must be a column.
pub fn validate_filter_operand(operand: &QueryValue, definition: &TableDefinition) -> (r: Result<
    (),
    QueryValidationError,
>)
    ensures
        checked(r, operand_symbols(operand@), definition@),
{
    match operand {
        QueryValue::Symbol(symbol) => validate_symbol(symbol.as_slice(), definition),
        _ => Ok(()),
    }
}

/// Checks the columns that a filter names, from left to right.
pub fn validate_riplog_filter(filter: &QueryFilter, definition: &TableDefinition) -> (r: Result<
    (),
    QueryValidationError,
>)
    ensures
        checked(r, filter_symbols(filter@), definition@),
    decreases filter,
{
    match filter {
        QueryFilter::BinaryOpFilter(operand1, operand2, _) => {
            proof {
                lemma_first_unknown_concat(
                    operand_symbols(operand1@),
                    operand_symbols(operand2@),
                    definition@,
                );
            }
            match validate_filter_operand(operand1, definition) {
                Ok(_) => validate_filter_operand(operand2, definition),
                Err(e) => Err(e),
            }
        },
        QueryFilter::AndFilter(filter1, filter2) => {
            proof {
                lemma_first_unknown_concat(
                    filter_symbols(filter1@),
                    filter_symbols(filter2@),
                    definition@,
                );
            }
            match validate_riplog_filter(filter1, definition) {
                Ok(_) => validate_riplog_filter(filter2, definition),
                Err(e) => Err(e),
            }
        },
        QueryFilter::OrFilter(filter1, filter2) => {
            proof {
                lemma_first_unknown_concat(
                    filter_symbols(filter1@),
                    filter_symbols(filter2@),
                    definition@,
                );
            }
            match validate_riplog_filter(filter1, definition) {
                Ok(_) => validate_riplog_filter(filter2, definition),
                Err(e) => Err(e),
            }
        },
    }
}

/// Checks the grouping columns, in order.
pub fn validate_riplog_grouping(grouping: &QueryGrouping, definition: &TableDefinition) -> (r: Result<
    (),
    QueryValidationError,
>)
    ensures
        checked(r, grouping@, definition@),
{
    let ghost names = grouping@;
    let mut i: usize = 0;
    assert(names.subrange(0, 0) =~= Seq::<Seq<u8>>::empty());
    while i < grouping.groupings.len()
        invariant
            i <= grouping.groupings@.len(),
            names == grouping@,
            first_unknown(names.subrange(0, i as int), definition@) is None,
        decreases grouping.groupings@.len() - i,
    {
        proof {
            assert(names.subrange(0, i + 1) =~= names.subrange(0, i as int) + seq![names[i as int]]);
            lemma_first_unknown_concat(
                names.subrange(0, i as int),
                seq![names[i as int]],
                definition@,
            );
            assert(names =~= names.subrange(0, i + 1) + names.subrange(i + 1, names.len() as int));
            lemma_first_unknown_concat(
                names.subrange(0, i + 1),
                names.subrange(i + 1, names.len() as int),
                definition@,
            );
            assert(names[i as int] == grouping.groupings@[i as int]@);
        }
        match validate_symbol(grouping.groupings[i].as_slice(), definition) {
            Ok(_) => {},
            Err(e) => {
                return Err(e);
            },
        }
        i += 1;
    }
    assert(names.subrange(0, i as int) =~= names);
    Ok(())
}

/// The symbols of a projection on end are those of its parts on end.
pub proof fn lemma_show_symbols_concat(a: Seq<ShowSpec>, b: Seq<ShowSpec>)
    ensures
        show_symbols(a + b) == show_symbols(a) + show_symbols(b),
    decreases b.len(),
{
    if b.len() == 0 {
        assert(a + b =~= a);
        assert(show_symbols(a) + show_symbols(b) =~= show_symbols(a));
    } else {
        assert((a + b).drop_last() =~= a + b.drop_last());
        assert((a + b).last() == b.last());
        lemma_show_symbols_concat(a, b.drop_last());
        assert(show_symbols(a + b) =~= show_symbols(a) + show_symbols(b));
    }
}

/// Checks one element of a projection.
pub fn validate_show_element(element: &QueryShowElement, definition: &TableDefinition) -> (r: Result<
    (),
    QueryValidationError,
>)
    ensures
        checked(r, element_symbols(element@), definition@),
{
    match element {
        QueryShowElement::Symbol(symbol) => validate_symbol(symbol.as_slice(), definition),
        QueryShowElement::Reducer(kind, symbol) => {
            proof {
                reveal_strlit("*");
            }
            let star = symbol.len() == 1 && symbol[0] == STAR;
            assert(star == (symbol@ == ascii("*"))) by {
                if star {
                    assert(symbol@ =~= ascii("*"));
                } else if symbol@.len() == 1 {
                    assert(ascii("*")[0] == STAR);
                }
            }
            match kind {
                QueryReducer::Count => {
                    if star {
                        Ok(())
                    } else {
                        validate_symbol(symbol.as_slice(), definition)
                    }
                },
                _ => validate_symbol(symbol.as_slice(), definition),
            }
        },
        QueryShowElement::All => Ok(()),
    }
}

/// Checks the columns that a projection names, in order.
pub fn validate_riplog_show(show: &QueryShow, definition: &TableDefinition) -> (r: Result<
    (),
    QueryValidationError,
>)
    ensures
        checked(r, show_symbols(show@), definition@),
{
    let ghost view = show@;
    let mut i: usize = 0;
    assert(view.subrange(0, 0) =~= Seq::<ShowSpec>::empty());
    while i < show.elements.len()
        invariant
            i <= show.elements@.len(),
            view == show@,
            first_unknown(show_symbols(view.subrange(0, i as int)), definition@) is None,
        decreases show.elements@.len() - i,
    {
        proof {
            let done = view.subrange(0, i as int);
            let next = view.subrange(0, i + 1);
            let rest = view.subrange(i + 1, view.len() as int);
            assert(next.drop_last() =~= done);
            assert(next.last() == view[i as int]);
            assert(view[i as int] == show.elements@[i as int]@);
            lemma_first_unknown_concat(
                show_symbols(done),
                element_symbols(view[i as int]),
                definition@,
            );
            assert(view =~= next + rest);
            lemma_show_symbols_concat(next, rest);
            lemma_first_unknown_concat(show_symbols(next), show_symbols(rest), definition@);
        }
        match validate_show_element(&show.elements[i], definition) {
            Ok(_) => {},
            Err(e) => {
                return Err(e);
            },
        }
        i += 1;
    }
    assert(view.subrange(0, i as int) =~= view);
    Ok(())
}

/// The sort is accepted as it is: a sort by something that the table does
/// not show leaves the groups in the order in which they were first seen.
pub fn validate_riplog_sort(sort: &QuerySort) -> (r: Result<(), QueryValidationError>)
    ensures
        r is Ok,
{
    Ok(())
}

/// Checks that every column that `query` names is one of the schema, and
/// reports the first that is not.
pub fn validate_riplog_query(query: &RipLogQuery, definition: &TableDefinition) -> (r: Result<
    (),
    QueryValidationError,
>)
    ensures
        checked(r, query_symbols(query@), definition@),
{
    let ghost f = match query@.filter {
        Some(f) => filter_symbols(f),
        None => Seq::<Seq<u8>>::empty(),
    };
    let ghost g = match query@.grouping {
        Some(g) => g,
        None => Seq::<Seq<u8>>::empty(),
    };
    let ghost s = match query@.show {
        Some(s) => show_symbols(s),
        None => Seq::<Seq<u8>>::empty(),
    };
    proof {
        lemma_first_unknown_concat(f, g, definition@);
        lemma_first_unknown_concat(f + g, s, definition@);
    }
    match &query.filter {
        Some(filter) => match validate_riplog_filter(filter, definition) {
            Ok(_) => {},
            Err(e) => {
                return Err(e);
            },
        },
        None => {},
    }
    match &query.grouping {
        Some(grouping) => match validate_riplog_grouping(grouping, definition) {
            Ok(_) => {},
            Err(e) => {
                return Err(e);
            },
        },
        None => {},
    }
    match &query.show {
        Some(show) => match validate_riplog_show(show, definition) {
            Ok(_) => {},
            Err(e) => {
                return Err(e);
            },
        },
        None => {},
    }
    match &query.sort {
        Some(sort) => validate_riplog_sort(sort),
        None => Ok(()),
    }
}

} // verus!
