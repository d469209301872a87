//! The filter: a tree of comparisons joined by `and` and `or`, evaluated
//! against one record.
use vstd::prelude::*;
use crate::nginx::BinaryNginxLogRecord;
use crate::nginx::RecordSpec;
use crate::parser::FilterSpec;
use crate::parser::QueryFilter;
use crate::parser::QueryFilterBinaryOp;
use crate::parser::QueryValue;
use crate::parser::ValueSpec;
use crate::pattern::pattern_matches;
use crate::table::get_symbol_bytes;
use crate::table::get_symbol_date;
use crate::table::get_symbol_string;
use crate::table::lemma_symbol_stable;
use crate::table::symbol_bytes;
use crate::table::symbol_instant;
use crate::table::symbol_text;
use crate::table::ColumnSpec;
use crate::table::TableDefinition;
use crate::text::bytes_contain;
use crate::text::bytes_eq;
use crate::text::bytes_less;
use crate::text::contains_bytes;
use crate::text::lex_less;

verus! {

/// The bytes that an operand is compared by: those a literal was written
/// with, none at all for `null`, the bytes of its column for a symbol.
/// `None` where a column is missing or unknown, and for an operand that is
/// not compared by its bytes.
pub open spec fn byte_value(v: ValueSpec, columns: Seq<ColumnSpec>, record: RecordSpec) -> Option<Seq<u8>> {
    match v {
        ValueSpec::Text(bytes) => Some(bytes),
        ValueSpec::Int(_, bytes) => Some(bytes),
        ValueSpec::Double(bytes) => Some(bytes),
        ValueSpec::Null => Some(Seq::empty()),
        ValueSpec::Symbol(symbol) => symbol_bytes(columns, symbol, record),
        _ => None,
    }
}

/// The text of an operand: a text literal, or what a text column holds.
pub open spec fn string_value(v: ValueSpec, columns: Seq<ColumnSpec>, record: RecordSpec) -> Option<
    Seq<u8>,
> {
    match v {
        ValueSpec::Text(text) => Some(text),
        ValueSpec::Symbol(symbol) => symbol_text(columns, symbol, record),
        _ => None,
    }
}

/// The instant of an operand: a date literal, or what a date column names.
pub open spec fn date_value(v: ValueSpec, columns: Seq<ColumnSpec>, record: RecordSpec) -> Option<i64> {
    match v {
        ValueSpec::Date(seconds, _) => Some(seconds),
        ValueSpec::Symbol(symbol) => symbol_instant(columns, symbol, record),
        _ => None,
    }
}

/// `a = b`: against `null`, the left side is missing; otherwise both sides
/// have bytes and the bytes are the same.
pub open spec fn eq_holds(a: ValueSpec, b: ValueSpec, columns: Seq<ColumnSpec>, record: RecordSpec) -> bool {
    if b is Null {
        byte_value(a, columns, record) is None
    } else {
        match (byte_value(a, columns, record), byte_value(b, columns, record)) {
            (Some(x), Some(y)) => x == y,
            _ => false,
        }
    }
}

/// `a != b`: against `null`, the left side is not missing; otherwise both
/// sides have bytes and the bytes differ.
pub open spec fn ne_holds(a: ValueSpec, b: ValueSpec, columns: Seq<ColumnSpec>, record: RecordSpec) -> bool {
    if b is Null {
        byte_value(a, columns, record) is Some
    } else {
        match (byte_value(a, columns, record), byte_value(b, columns, record)) {
            (Some(x), Some(y)) => x != y,
            _ => false,
        }
    }
}

/// `a < b`: against a date, the left side is a column that names an
/// earlier instant; otherwise both sides have bytes and those of `a` come
/// first in lexicographic order.
pub open spec fn lt_holds(a: ValueSpec, b: ValueSpec, columns: Seq<ColumnSpec>, record: RecordSpec) -> bool {
    match b {
        ValueSpec::Date(limit, _) => match a {
            ValueSpec::Symbol(symbol) => match symbol_instant(columns, symbol, record) {
                Some(t) => t < limit,
                None => false,
            },
            _ => false,
        },
        _ => match (byte_value(a, columns, record), byte_value(b, columns, record)) {
            (Some(x), Some(y)) => lex_less(x, y),
            _ => false,
        },
    }
}

/// `a > b`: against a date, the left side is a column that names a later
/// instant; otherwise both sides have bytes and those of `a` come last in
/// lexicographic order.
pub open spec fn gt_holds(a: ValueSpec, b: ValueSpec, columns: Seq<ColumnSpec>, record: RecordSpec) -> bool {
    match b {
        ValueSpec::Date(limit, _) => match a {
            ValueSpec::Symbol(symbol) => match symbol_instant(columns, symbol, record) {
                Some(t) => t > limit,
                None => false,
            },
            _ => false,
        },
        _ => match (byte_value(a, columns, record), byte_value(b, columns, record)) {
            (Some(x), Some(y)) => lex_less(y, x),
            _ => false,
        },
    }
}

/// `a ~ b`: the left side is a text column that holds a value, and the
/// regular expression on the right matches in it, or the text on the right
/// stands in it.
pub open spec fn re_holds(a: ValueSpec, b: ValueSpec, columns: Seq<ColumnSpec>, record: RecordSpec) -> bool {
    match a {
        ValueSpec::Symbol(symbol) => match symbol_text(columns, symbol, record) {
            Some(text) => match b {
                ValueSpec::Regex(pattern) => pattern_matches(pattern, text),
                ValueSpec::Text(part) => contains_bytes(text, part),
                _ => false,
            },
            None => false,
        },
        _ => false,
    }
}

/// `a !~ b`: the left side has a text and `a ~ b` does not hold.
pub open spec fn nr_holds(a: ValueSpec, b: ValueSpec, columns: Seq<ColumnSpec>, record: RecordSpec) -> bool {
    string_value(a, columns, record) is Some && !re_holds(a, b, columns, record)
}

/// Whether one comparison holds of a record.
pub open spec fn comparison_holds(
    a: ValueSpec,
    b: ValueSpec,
    op: QueryFilterBinaryOp,
    columns: Seq<ColumnSpec>,
    record: RecordSpec,
) -> bool {
    match op {
        QueryFilterBinaryOp::Lt => lt_holds(a, b, columns, record),
        QueryFilterBinaryOp::Gt => gt_holds(a, b, columns, record),
        QueryFilterBinaryOp::Eq => eq_holds(a, b, columns, record),
        QueryFilterBinaryOp::Ne => ne_holds(a, b, columns, record),
        QueryFilterBinaryOp::Re => re_holds(a, b, columns, record),
        QueryFilterBinaryOp::Nr => nr_holds(a, b, columns, record),
    }
}

/// Whether a filter holds of a record.
pub open spec fn filter_holds(f: FilterSpec, columns: Seq<ColumnSpec>, record: RecordSpec) -> bool
    decreases f,
{
    match f {
        FilterSpec::BinaryOp(a, b, op) => comparison_holds(a, b, op, columns, record),
        FilterSpec::And(l, r) => filter_holds(*l, columns, record) && filter_holds(*r, columns, record),
        FilterSpec::Or(l, r) => filter_holds(*l, columns, record) || filter_holds(*r, columns, record),
    }
}

/// Whether a record passes the filter of a query.  It passes where there
/// is none.
pub open spec fn passes(filter: Option<FilterSpec>, columns: Seq<ColumnSpec>, record: RecordSpec) -> bool {
    match filter {
        Some(f) => filter_holds(f, columns, record),
        None => true,
    }
}

/// Whether a comparison holds does not change while the record decodes
/// more.
pub proof fn lemma_comparison_stable(
    a: ValueSpec,
    b: ValueSpec,
    op: QueryFilterBinaryOp,
    columns: Seq<ColumnSpec>,
    before: RecordSpec,
    after: RecordSpec,
)
    requires
        before.extended_by(after),
    ensures
        comparison_holds(a, b, op, columns, before) == comparison_holds(a, b, op, columns, after),
{
    match a {
        ValueSpec::Symbol(s) => lemma_symbol_stable(columns, s, before, after),
        _ => {},
    }
    match b {
        ValueSpec::Symbol(s) => lemma_symbol_stable(columns, s, before, after),
        _ => {},
    }
}

/// Whether a filter holds does not change while the record decodes more.
pub proof fn lemma_filter_stable(
    f: FilterSpec,
    columns: Seq<ColumnSpec>,
    before: RecordSpec,
    after: RecordSpec,
)
    requires
        before.extended_by(after),
    ensures
        filter_holds(f, columns, before) == filter_holds(f, columns, after),
    decreases f,
{
    match f {
        FilterSpec::BinaryOp(a, b, op) => lemma_comparison_stable(a, b, op, columns, before, after),
        FilterSpec::And(l, r) => {
            lemma_filter_stable(*l, columns, before, after);
            lemma_filter_stable(*r, columns, before, after);
        },
        FilterSpec::Or(l, r) => {
            lemma_filter_stable(*l, columns, before, after);
            lemma_filter_stable(*r, columns, before, after);
        },
    }
}

/// The bytes that `value` is compared by.  `empty` lends the bytes of
/// `null`.
pub fn resolve_byte_value<'a>(
    value: &'a QueryValue,
    tdef: &TableDefinition,
    record: &'a BinaryNginxLogRecord,
    empty: &'a Vec<u8>,
) -> (r: Option<&'a Vec<u8>>)
    requires
        empty@.len() == 0,
    ensures
        match r {
            Some(b) => byte_value(value@, tdef@, record@) == Some(b@),
            None => byte_value(value@, tdef@, record@) is None,
        },
{
    match value {
        QueryValue::Text(bytes) => Some(bytes),
        QueryValue::Int(_, bytes) => Some(bytes),
        QueryValue::Double(bytes) => Some(bytes),
        QueryValue::Null => {
            assert(empty@ =~= Seq::<u8>::empty());
            Some(empty)
        },
        QueryValue::Symbol(symbol) => get_symbol_bytes(tdef, record, symbol.as_slice()),
        _ => None,
    }
}

/// The instant of `value`.
pub fn resolve_date_value(
    value: &QueryValue,
    tdef: &TableDefinition,
    record: &mut BinaryNginxLogRecord,
) -> (r: Option<i64>)
    requires
        old(record).wf(),
    ensures
        final(record).wf(),
        old(record)@.extended_by(final(record)@),
        r == date_value(value@, tdef@, old(record)@),
{
    match value {
        QueryValue::Date(seconds, _) => Some(*seconds),
        QueryValue::Symbol(symbol) => match get_symbol_date(tdef, record, symbol.as_slice()) {
            Some(d) => Some(d.seconds),
            None => None,
        },
        _ => None,
    }
}

/// The text of `value`.
pub fn resolve_string_value(
    value: &QueryValue,
    tdef: &TableDefinition,
    record: &mut BinaryNginxLogRecord,
) -> (r: Option<Vec<u8>>)
    requires
        old(record).wf(),
    ensures
        final(record).wf(),
        final(record)@ == old(record)@,
        match r {
            Some(t) => string_value(value@, tdef@, old(record)@) == Some(t@),
            None => string_value(value@, tdef@, old(record)@) is None,
        },
{
    match value {
        QueryValue::Text(text) => Some(crate::text::copy_bytes(text.as_slice())),
        QueryValue::Symbol(symbol) => get_symbol_string(tdef, record, symbol.as_slice()),
        _ => None,
    }
}

/// Whether `operand1 = operand2` holds of `record`.
pub fn evaluate_eq(
    operand1: &QueryValue,
    operand2: &QueryValue,
    tdef: &TableDefinition,
    record: &BinaryNginxLogRecord,
) -> (r: bool)
    ensures
        r == eq_holds(operand1@, operand2@, tdef@, record@),
{
    let empty: Vec<u8> = Vec::new();
    match operand2 {
        QueryValue::Null => resolve_byte_value(operand1, tdef, record, &empty).is_none(),
        _ => {
            let op1bytes = resolve_byte_value(operand1, tdef, record, &empty);
            let op2bytes = resolve_byte_value(operand2, tdef, record, &empty);
            match (op1bytes, op2bytes) {
                (Some(x), Some(y)) => bytes_eq(x.as_slice(), y.as_slice()),
                _ => false,
            }
        },
    }
}

/// Whether `operand1 != operand2` holds of `record`.
pub fn evaluate_ne(
    operand1: &QueryValue,
    operand2: &QueryValue,
    tdef: &TableDefinition,
    record: &BinaryNginxLogRecord,
) -> (r: bool)
    ensures
        r == ne_holds(operand1@, operand2@, tdef@, record@),
{
    let empty: Vec<u8> = Vec::new();
    match operand2 {
        QueryValue::Null => resolve_byte_value(operand1, tdef, record, &empty).is_some(),
        _ => {
            let op1bytes = resolve_byte_value(operand1, tdef, record, &empty);
            let op2bytes = resolve_byte_value(operand2, tdef, record, &empty);
            match (op1bytes, op2bytes) {
                (Some(x), Some(y)) => !bytes_eq(x.as_slice(), y.as_slice()),
                _ => false,
            }
        },
    }
}

/// Whether `operand1 < operand2` holds of `record`.
pub fn evaluate_lt(
    operand1: &QueryValue,
    operand2: &QueryValue,
    tdef: &TableDefinition,
    record: &mut BinaryNginxLogRecord,
) -> (r: bool)
    requires
        old(record).wf(),
    ensures
        final(record).wf(),
        old(record)@.extended_by(final(record)@),
        r == lt_holds(operand1@, operand2@, tdef@, old(record)@),
{
    if operand2.is_date() {
        match (operand1, operand2) {
            (QueryValue::Symbol(symbol), QueryValue::Date(date, _)) => {
                match get_symbol_date(tdef, record, symbol.as_slice()) {
                    Some(d) => d.seconds < *date,
                    None => false,
                }
            },
            _ => false,
        }
    } else {
        let empty: Vec<u8> = Vec::new();
        let op1bytes = resolve_byte_value(operand1, tdef, record, &empty);
        let op2bytes = resolve_byte_value(operand2, tdef, record, &empty);
        match (op1bytes, op2bytes) {
            (Some(x), Some(y)) => bytes_less(x.as_slice(), y.as_slice()),
            _ => false,
        }
    }
}

/// Whether `operand1 > operand2` holds of `record`.
pub fn evaluate_gt(
    operand1: &QueryValue,
    operand2: &QueryValue,
    tdef: &TableDefinition,
    record: &mut BinaryNginxLogRecord,
) -> (r: bool)
    requires
        old(record).wf(),
    ensures
        final(record).wf(),
        old(record)@.extended_by(final(record)@),
        r == gt_holds(operand1@, operand2@, tdef@, old(record)@),
{
    if operand2.is_date() {
        match (operand1, operand2) {
            (QueryValue::Symbol(symbol), QueryValue::Date(date, _)) => {
                match get_symbol_date(tdef, record, symbol.as_slice()) {
                    Some(d) => d.seconds > *date,
                    None => false,
                }
            },
            _ => false,
        }
    } else {
        let empty: Vec<u8> = Vec::new();
        let op1bytes = resolve_byte_value(operand1, tdef, record, &empty);
        let op2bytes = resolve_byte_value(operand2, tdef, record, &empty);
        match (op1bytes, op2bytes) {
            (Some(x), Some(y)) => bytes_less(y.as_slice(), x.as_slice()),
            _ => false,
        }
    }
}

/// Whether `operand1 ~ operand2` holds of `record`.
pub fn evaluate_re(
    operand1: &QueryValue,
    operand2: &QueryValue,
    tdef: &TableDefinition,
    record: &mut BinaryNginxLogRecord,
) -> (r: bool)
    requires
        old(record).wf(),
    ensures
        final(record).wf(),
        final(record)@ == old(record)@,
        r == re_holds(operand1@, operand2@, tdef@, old(record)@),
{
    match (operand1, operand2) {
        (QueryValue::Symbol(symbol), QueryValue::Regex(regex)) => {
            match get_symbol_string(tdef, record, symbol.as_slice()) {
                Some(text) => regex.is_match(text.as_slice()),
                None => false,
            }
        },
        (QueryValue::Symbol(symbol), QueryValue::Text(value)) => {
            match get_symbol_string(tdef, record, symbol.as_slice()) {
                Some(text) => bytes_contain(text.as_slice(), value.as_slice()),
                None => false,
            }
        },
        _ => false,
    }
}

/// Whether `operand1 !~ operand2` holds of `record`.
pub fn evaluate_nr(
    operand1: &QueryValue,
    operand2: &QueryValue,
    tdef: &TableDefinition,
    record: &mut BinaryNginxLogRecord,
) -> (r: bool)
    requires
        old(record).wf(),
    ensures
        final(record).wf(),
        final(record)@ == old(record)@,
        r == nr_holds(operand1@, operand2@, tdef@, old(record)@),
{
    let has_text = resolve_string_value(operand1, tdef, record).is_some();
    has_text && !evaluate_re(operand1, operand2, tdef, record)
}

/// Whether one comparison holds of `record`.
pub fn evaluate_binary_filter(
    operand1: &QueryValue,
    operand2: &QueryValue,
    op: &QueryFilterBinaryOp,
    tdef: &TableDefinition,
    record: &mut BinaryNginxLogRecord,
) -> (r: bool)
    requires
        old(record).wf(),
    ensures
        final(record).wf(),
        old(record)@.extended_by(final(record)@),
        r == comparison_holds(operand1@, operand2@, *op, tdef@, old(record)@),
{
    match op {
        QueryFilterBinaryOp::Lt => evaluate_lt(operand1, operand2, tdef, record),
        QueryFilterBinaryOp::Gt => evaluate_gt(operand1, operand2, tdef, record),
        QueryFilterBinaryOp::Eq => evaluate_eq(operand1, operand2, tdef, record),
        QueryFilterBinaryOp::Ne => evaluate_ne(operand1, operand2, tdef, record),
        QueryFilterBinaryOp::Re => evaluate_re(operand1, operand2, tdef, record),
        QueryFilterBinaryOp::Nr => evaluate_nr(operand1, operand2, tdef, record),
    }
}

/// Whether `filter` holds of `record`.  The right side of an `and` is not
/// looked at where the left side fails, nor that of an `or` where the left
/// side holds.
pub fn evaluate_filter(filter: &QueryFilter, tdef: &TableDefinition, record: &mut BinaryNginxLogRecord) -> (r:
    bool)
    requires
        old(record).wf(),
    ensures
        final(record).wf(),
        old(record)@.extended_by(final(record)@),
        r == filter_holds(filter@, tdef@, old(record)@),
    decreases filter,
{
    match filter {
        QueryFilter::BinaryOpFilter(operand1, operand2, op) => evaluate_binary_filter(
            operand1,
            operand2,
            op,
            tdef,
            record,
        ),
        QueryFilter::AndFilter(filter1, filter2) => {
            if evaluate_filter(filter1, tdef, record) {
                proof {
                    lemma_filter_stable(filter2@, tdef@, old(record)@, record@);
                }
                evaluate_filter(filter2, tdef, record)
            } else {
                false
            }
        },
        QueryFilter::OrFilter(filter1, filter2) => {
            if evaluate_filter(filter1, tdef, record) {
                true
            } else {
                proof {
                    lemma_filter_stable(filter2@, tdef@, old(record)@, record@);
                }
                evaluate_filter(filter2, tdef, record)
            }
        },
    }
}

} // verus!
