//! The column schema: what each column is called, how wide it is shown, and
//! how its value is taken from a record.
use vstd::prelude::*;
use crate::dates::date_text;
use crate::text::opt_bytes;
use crate::dates::render_date;
use crate::dates::DateValue;
use crate::nginx::empty_opt;
use crate::nginx::is_empty;
use crate::nginx::BinaryNginxLogRecord;
use crate::nginx::RecordSpec;
use crate::text::bytes_eq;
use crate::text::copy_bytes;
use crate::text::decimal_digits;
use crate::text::decimal_u64;
use crate::text::has_text;
use crate::text::is_dash;
use crate::text::parse_u64;
use crate::text::render_u64;
use crate::text::text_value;

verus! {

/// The field of a record that a column reads.
#[derive(Clone, Copy, Debug, PartialEq, Eq, Structural)]
pub enum Field {
    Ip,
    Date,
    Method,
    Path,
    Query,
    Status,
    Bytes,
    Referrer,
    UserAgent,
}

/// The type of a column's values.
#[derive(Clone, Copy, Debug, PartialEq, Eq, Structural)]
pub enum ColumnKind {
    Integer,
    Double,
    Text,
    Date,
    Boolean,
}

/// A column: its name, the width it is shown at, and the field it reads.
/// The variant says how the field's bytes are decoded.
#[derive(Debug, Clone)]
pub enum ColumnDefinition {
    Integer { name: Vec<u8>, size: usize, source: Field },
    Double { name: Vec<u8>, size: usize, source: Field },
    Text { name: Vec<u8>, size: usize, source: Field },
    Date { name: Vec<u8>, size: usize, source: Field },
    Boolean { name: Vec<u8>, size: usize, source: Field },
}

/// A column definition as a plain value.
pub struct ColumnSpec {
    pub kind: ColumnKind,
    pub name: Seq<u8>,
    pub size: usize,
    pub source: Field,
}

impl View for ColumnDefinition {
    type V = ColumnSpec;

    open spec fn view(&self) -> ColumnSpec {
        match self {
            ColumnDefinition::Integer { name, size, source } => ColumnSpec {
                kind: ColumnKind::Integer,
                name: name@,
                size: *size,
                source: *source,
            },
            ColumnDefinition::Double { name, size, source } => ColumnSpec {
                kind: ColumnKind::Double,
                name: name@,
                size: *size,
                source: *source,
            },
            ColumnDefinition::Text { name, size, source } => ColumnSpec {
                kind: ColumnKind::Text,
                name: name@,
                size: *size,
                source: *source,
            },
            ColumnDefinition::Date { name, size, source } => ColumnSpec {
                kind: ColumnKind::Date,
                name: name@,
                size: *size,
                source: *source,
            },
            ColumnDefinition::Boolean { name, size, source } => ColumnSpec {
                kind: ColumnKind::Boolean,
                name: name@,
                size: *size,
                source: *source,
            },
        }
    }
}

/// The raw bytes of one field of a record.
pub open spec fn raw_of(record: RecordSpec, field: Field) -> Seq<u8> {
    match field {
        Field::Ip => record.ip,
        Field::Date => record.date,
        Field::Method => record.method,
        Field::Path => record.path,
        Field::Query => record.query,
        Field::Status => record.status,
        Field::Bytes => record.bytes,
        Field::Referrer => record.referrer,
        Field::UserAgent => record.user_agent,
    }
}

/// The bytes of a column as the filter compares them: the raw bytes of its
/// field, or `None` where the value is missing.  A value is missing when
/// its bytes are empty, and a text value also when it is a dash.
pub open spec fn column_bytes(c: ColumnSpec, record: RecordSpec) -> Option<Seq<u8>> {
    let raw = raw_of(record, c.source);
    if c.kind == ColumnKind::Text {
        text_value(raw)
    } else if raw.len() == 0 {
        None
    } else {
        Some(raw)
    }
}

/// The number that an integer column holds; `None` for a column of another
/// kind, and where the bytes are not a number.
pub open spec fn column_integer(c: ColumnSpec, record: RecordSpec) -> Option<u64> {
    if c.kind == ColumnKind::Integer {
        decimal_u64(raw_of(record, c.source))
    } else {
        None
    }
}

/// The text that a text column holds; `None` for a column of another kind,
/// and where the value is missing.
pub open spec fn column_text(c: ColumnSpec, record: RecordSpec) -> Option<Seq<u8>> {
    if c.kind == ColumnKind::Text {
        text_value(raw_of(record, c.source))
    } else {
        None
    }
}

/// The instant that a date column names.  Only a column that reads the
/// date field has one.
pub open spec fn column_instant(c: ColumnSpec, record: RecordSpec) -> Option<i64> {
    if c.kind == ColumnKind::Date && c.source == Field::Date {
        record.date_seconds()
    } else {
        None
    }
}

/// The date that a date column holds, as the record has decoded it.
pub open spec fn column_date(c: ColumnSpec, record: RecordSpec) -> Option<DateValue> {
    if c.kind == ColumnKind::Date && c.source == Field::Date {
        match record.decoded_date {
            Some(d) => d,
            None => None,
        }
    } else {
        None
    }
}

/// What a column shows for a record: a number in decimal, a text as it
/// is, a date as `YYYY-MM-DD HH:MM:SS +HH:MM` in the local zone, a value of
/// another kind as its raw bytes; `None` where the value is missing.
pub open spec fn column_shown(c: ColumnSpec, record: RecordSpec) -> Option<Seq<u8>> {
    match c.kind {
        ColumnKind::Integer => match column_integer(c, record) {
            Some(n) => Some(decimal_digits(n as nat)),
            None => None,
        },
        ColumnKind::Text => column_text(c, record),
        ColumnKind::Date => match column_date(c, record) {
            Some(d) => date_text(d.seconds, d.offset),
            None => None,
        },
        _ => column_bytes(c, record),
    }
}

/// `true` when the record has decoded its date, if `c` is a column that
/// shows it.
pub open spec fn date_ready(c: ColumnSpec, record: RecordSpec) -> bool {
    c.kind == ColumnKind::Date && c.source == Field::Date ==> record.decoded_date is Some
}

/// The raw bytes of one field of a record.
pub fn raw_column(record: &BinaryNginxLogRecord, field: Field) -> (raw: &Vec<u8>)
    ensures
        raw@ == raw_of(record@, field),
{
    match field {
        Field::Ip => &record.ip,
        Field::Date => &record.date,
        Field::Method => &record.method,
        Field::Path => &record.path,
        Field::Query => &record.query,
        Field::Status => &record.status,
        Field::Bytes => &record.bytes,
        Field::Referrer => &record.referrer,
        Field::UserAgent => &record.user_agent,
    }
}

impl ColumnDefinition {
    pub fn name(&self) -> (name: &Vec<u8>)
        ensures
            name@ == self@.name,
    {
        match self {
            ColumnDefinition::Integer { name, .. } => name,
            ColumnDefinition::Double { name, .. } => name,
            ColumnDefinition::Text { name, .. } => name,
            ColumnDefinition::Date { name, .. } => name,
            ColumnDefinition::Boolean { name, .. } => name,
        }
    }

    pub fn get_size(&self) -> (size: usize)
        ensures
            size == self@.size,
    {
        match self {
            ColumnDefinition::Text { size, .. } => *size,
            ColumnDefinition::Double { size, .. } => *size,
            ColumnDefinition::Integer { size, .. } => *size,
            ColumnDefinition::Boolean { size, .. } => *size,
            ColumnDefinition::Date { size, .. } => *size,
        }
    }

    pub fn kind(&self) -> (kind: ColumnKind)
        ensures
            kind == self@.kind,
    {
        match self {
            ColumnDefinition::Text { .. } => ColumnKind::Text,
            ColumnDefinition::Double { .. } => ColumnKind::Double,
            ColumnDefinition::Integer { .. } => ColumnKind::Integer,
            ColumnDefinition::Boolean { .. } => ColumnKind::Boolean,
            ColumnDefinition::Date { .. } => ColumnKind::Date,
        }
    }

    pub fn source(&self) -> (source: Field)
        ensures
            source == self@.source,
    {
        match self {
            ColumnDefinition::Text { source, .. } => *source,
            ColumnDefinition::Double { source, .. } => *source,
            ColumnDefinition::Integer { source, .. } => *source,
            ColumnDefinition::Boolean { source, .. } => *source,
            ColumnDefinition::Date { source, .. } => *source,
        }
    }

    /// The bytes of this column in `record`, or `None` where the value is
    /// missing.
    pub fn extract_binary<'b>(&self, record: &'b BinaryNginxLogRecord) -> (r: Option<&'b Vec<u8>>)
        ensures
            match r {
                Some(b) => column_bytes(self@, record@) == Some(b@),
                None => column_bytes(self@, record@) is None,
            },
    {
        let raw = raw_column(record, self.source());
        match self {
            ColumnDefinition::Text { .. } => {
                if is_empty(raw.as_slice()) {
                    None
                } else {
                    empty_opt(raw)
                }
            },
            _ => empty_opt(raw),
        }
    }
}

/// The number that an integer column holds in `item`.
pub fn get_column_value_as_integer(cdef: &ColumnDefinition, item: &mut BinaryNginxLogRecord) -> (r:
    Option<u64>)
    requires
        old(item).wf(),
    ensures
        final(item).wf(),
        old(item)@.extended_by(final(item)@),
        final(item)@.decoded_date == old(item)@.decoded_date,
        r == column_integer(cdef@, old(item)@),
{
    match cdef {
        ColumnDefinition::Integer { source, .. } => match source {
            Field::Status => item.parsed_status(),
            Field::Bytes => item.parsed_bytes(),
            _ => parse_u64(raw_column(item, *source).as_slice()),
        },
        _ => None,
    }
}

/// The text that a text column holds in `item`.
pub fn get_column_value_as_text(cdef: &ColumnDefinition, item: &mut BinaryNginxLogRecord) -> (r:
    Option<Vec<u8>>)
    requires
        old(item).wf(),
    ensures
        final(item).wf(),
        old(item)@.extended_by(final(item)@),
        final(item)@.decoded_date == old(item)@.decoded_date,
        opt_bytes(r) == column_text(cdef@, old(item)@),
{
    match cdef {
        ColumnDefinition::Text { source, .. } => match source {
            Field::Method => item.parsed_method(),
            Field::Query => item.parsed_query(),
            Field::Referrer => item.parsed_referrer(),
            Field::UserAgent => item.parsed_user_agent(),
            Field::Ip => {
                if has_text(item.ip.as_slice()) {
                    Some(item.parsed_ip())
                } else {
                    None
                }
            },
            Field::Path => {
                if has_text(item.path.as_slice()) {
                    Some(item.parsed_path())
                } else {
                    None
                }
            },
            _ => {
                let raw = raw_column(item, *source);
                if has_text(raw.as_slice()) {
                    Some(copy_bytes(raw.as_slice()))
                } else {
                    None
                }
            },
        },
        _ => None,
    }
}

/// The date that a date column holds in `item`.
pub fn get_column_value_as_date(cdef: &ColumnDefinition, item: &mut BinaryNginxLogRecord) -> (r:
    Option<DateValue>)
    requires
        old(item).wf(),
    ensures
        final(item).wf(),
        old(item)@.extended_by(final(item)@),
        date_ready(cdef@, final(item)@),
        r == column_date(cdef@, final(item)@),
        match r {
            Some(d) => column_instant(cdef@, old(item)@) == Some(d.seconds),
            None => column_instant(cdef@, old(item)@) is None,
        },
{
    match cdef {
        ColumnDefinition::Date { source, .. } => match source {
            Field::Date => item.parsed_date(),
            _ => None,
        },
        _ => None,
    }
}

/// What a column shows for `item`, or `None` where the value is missing.
pub fn get_column_value_as_string(cdef: &ColumnDefinition, item: &mut BinaryNginxLogRecord) -> (r:
    Option<Vec<u8>>)
    requires
        old(item).wf(),
    ensures
        final(item).wf(),
        old(item)@.extended_by(final(item)@),
        date_ready(cdef@, final(item)@),
        opt_bytes(r) == column_shown(cdef@, final(item)@),
{
    match cdef {
        ColumnDefinition::Integer { .. } => match get_column_value_as_integer(cdef, item) {
            Some(n) => Some(render_u64(n)),
            None => None,
        },
        ColumnDefinition::Text { .. } => get_column_value_as_text(cdef, item),
        ColumnDefinition::Date { .. } => match get_column_value_as_date(cdef, item) {
            Some(d) => render_date(d.seconds, d.offset),
            None => None,
        },
        _ => match cdef.extract_binary(item) {
            Some(b) => Some(copy_bytes(b.as_slice())),
            None => None,
        },
    }
}

/// The schema: the columns, in the order in which `show *` lists them.
#[derive(Debug, Clone)]
pub struct TableDefinition {
    pub columns: Vec<ColumnDefinition>,
}

impl View for TableDefinition {
    type V = Seq<ColumnSpec>;

    open spec fn view(&self) -> Seq<ColumnSpec> {
        self.columns@.map_values(|c: ColumnDefinition| c@)
    }
}

/// Index of the first column of `columns` called `name`, or the number of
/// columns when none is.
pub open spec fn column_index(columns: Seq<ColumnSpec>, name: Seq<u8>) -> int
    decreases columns.len(),
{
    if columns.len() == 0 {
        0
    } else if columns[0].name == name {
        0
    } else {
        1 + column_index(columns.drop_first(), name)
    }
}

/// `true` when a column of `columns` is called `name`.
pub open spec fn has_column(columns: Seq<ColumnSpec>, name: Seq<u8>) -> bool {
    exists|i: int| 0 <= i < columns.len() && #[trigger] columns[i].name == name
}

/// No two columns share a name.
pub open spec fn distinct_names(columns: Seq<ColumnSpec>) -> bool {
    forall|i: int, j: int|
        0 <= i < j < columns.len() ==> #[trigger] columns[i].name != #[trigger] columns[j].name
}

/// `column_index` names the first column called `name`, if there is one.
pub proof fn lemma_column_index(columns: Seq<ColumnSpec>, name: Seq<u8>)
    ensures
        0 <= column_index(columns, name) <= columns.len(),
        column_index(columns, name) < columns.len() ==> columns[column_index(columns, name)].name
            == name,
        forall|j: int| 0 <= j < column_index(columns, name) ==> (#[trigger] columns[j]).name != name,
        has_column(columns, name) <==> column_index(columns, name) < columns.len(),
    decreases columns.len(),
{
    if columns.len() > 0 && columns[0].name != name {
        let rest = columns.drop_first();
        lemma_column_index(rest, name);
        assert forall|j: int| 0 <= j < column_index(columns, name) implies (
        #[trigger] columns[j]).name != name by {
            if j > 0 {
                assert(rest[j - 1] == columns[j]);
            }
        }
        if has_column(columns, name) {
            let i = choose|i: int| 0 <= i < columns.len() && #[trigger] columns[i].name == name;
            assert(rest[i - 1].name == name);
        }
        if has_column(rest, name) {
            let i = choose|i: int| 0 <= i < rest.len() && #[trigger] rest[i].name == name;
            assert(columns[i + 1].name == name);
        }
    } else if columns.len() > 0 {
        assert(columns[0].name == name);
    }
}

/// Where no two columns share a name, a column is the one that its name
/// finds.
pub proof fn lemma_own_name_finds_column(columns: Seq<ColumnSpec>, i: int)
    requires
        distinct_names(columns),
        0 <= i < columns.len(),
    ensures
        has_column(columns, columns[i].name),
        column_index(columns, columns[i].name) == i,
        symbol_column(columns, columns[i].name) == Some(columns[i]),
{
    lemma_column_index(columns, columns[i].name);
    let k = column_index(columns, columns[i].name);
    if k < i {
        assert(columns[k].name != columns[i].name);
    }
}

/// Where a column has a value, its bytes are the raw bytes of the field it
/// reads; and it has one exactly when those are not empty and, for a text
/// column, not a dash.
pub proof fn lemma_present_bytes_are_raw(c: ColumnSpec, record: RecordSpec)
    ensures
        column_bytes(c, record) matches Some(b) ==> b == raw_of(record, c.source) && b.len() > 0,
        column_bytes(c, record) is Some <==> raw_of(record, c.source).len() > 0 && !(c.kind
            == ColumnKind::Text && is_dash(raw_of(record, c.source))),
{
}

/// Under a schema in which no two columns share a name, the bytes that a
/// column name gives for a record are the raw bytes of the field of that
/// column, wherever the column has a value.
pub proof fn lemma_symbol_bytes_are_raw(columns: Seq<ColumnSpec>, i: int, record: RecordSpec)
    requires
        distinct_names(columns),
        0 <= i < columns.len(),
    ensures
        symbol_bytes(columns, columns[i].name, record) == column_bytes(columns[i], record),
        symbol_bytes(columns, columns[i].name, record) matches Some(b) ==> b == raw_of(
            record,
            columns[i].source,
        ),
{
    lemma_own_name_finds_column(columns, i);
}

impl TableDefinition {
    /// Position of the column called `name`, if there is one.
    pub fn find(&self, name: &[u8]) -> (r: Option<usize>)
        ensures
            match r {
                Some(i) => i < self@.len() && i == column_index(self@, name@),
                None => column_index(self@, name@) == self@.len(),
            },
            r is Some <==> has_column(self@, name@),
    {
        let mut i: usize = 0;
        while i < self.columns.len()
            invariant
                i <= self.columns@.len(),
                forall|j: int| 0 <= j < i ==> (#[trigger] self@[j]).name != name@,
            decreases self.columns@.len() - i,
        {
            if bytes_eq(self.columns[i].name().as_slice(), name) {
                proof {
                    lemma_column_index(self@, name@);
                    assert(self@[i as int].name == name@);
                }
                return Some(i);
            }
            i += 1;
        }
        proof {
            lemma_column_index(self@, name@);
        }
        None
    }

    /// `true` when the schema has a column called `name`.
    pub fn contains_key(&self, name: &[u8]) -> (r: bool)
        ensures
            r == has_column(self@, name@),
    {
        self.find(name).is_some()
    }

    /// The column called `name`, if there is one.
    pub fn get(&self, name: &[u8]) -> (r: Option<&ColumnDefinition>)
        ensures
            match r {
                Some(c) => has_column(self@, name@) && c@ == self@[column_index(self@, name@)],
                None => !has_column(self@, name@),
            },
    {
        match self.find(name) {
            Some(i) => Some(&self.columns[i]),
            None => None,
        }
    }
}

/// The column called `name`, if the schema has one.
pub open spec fn symbol_column(columns: Seq<ColumnSpec>, name: Seq<u8>) -> Option<ColumnSpec> {
    if has_column(columns, name) {
        Some(columns[column_index(columns, name)])
    } else {
        None
    }
}

/// The bytes of the column called `name`; `None` where the value is
/// missing or the schema has no such column.
pub open spec fn symbol_bytes(columns: Seq<ColumnSpec>, name: Seq<u8>, record: RecordSpec) -> Option<
    Seq<u8>,
> {
    match symbol_column(columns, name) {
        Some(c) => column_bytes(c, record),
        None => None,
    }
}

/// The number that the column called `name` holds.
pub open spec fn symbol_integer(columns: Seq<ColumnSpec>, name: Seq<u8>, record: RecordSpec) -> Option<
    u64,
> {
    match symbol_column(columns, name) {
        Some(c) => column_integer(c, record),
        None => None,
    }
}

/// The text that the column called `name` holds.
pub open spec fn symbol_text(columns: Seq<ColumnSpec>, name: Seq<u8>, record: RecordSpec) -> Option<
    Seq<u8>,
> {
    match symbol_column(columns, name) {
        Some(c) => column_text(c, record),
        None => None,
    }
}

/// The instant that the column called `name` names.
pub open spec fn symbol_instant(columns: Seq<ColumnSpec>, name: Seq<u8>, record: RecordSpec) -> Option<
    i64,
> {
    match symbol_column(columns, name) {
        Some(c) => column_instant(c, record),
        None => None,
    }
}

/// What the column called `name` shows.
pub open spec fn symbol_shown(columns: Seq<ColumnSpec>, name: Seq<u8>, record: RecordSpec) -> Option<
    Seq<u8>,
> {
    match symbol_column(columns, name) {
        Some(c) => column_shown(c, record),
        None => None,
    }
}

/// `true` when the record has decoded its date, if the column called
/// `name` shows it.
pub open spec fn symbol_ready(columns: Seq<ColumnSpec>, name: Seq<u8>, record: RecordSpec) -> bool {
    match symbol_column(columns, name) {
        Some(c) => date_ready(c, record),
        None => true,
    }
}

/// What the column called `name` shows does not change while the record
/// decodes more.
pub proof fn lemma_symbol_stable(
    columns: Seq<ColumnSpec>,
    name: Seq<u8>,
    a: RecordSpec,
    b: RecordSpec,
)
    requires
        a.extended_by(b),
    ensures
        symbol_bytes(columns, name, a) == symbol_bytes(columns, name, b),
        symbol_integer(columns, name, a) == symbol_integer(columns, name, b),
        symbol_text(columns, name, a) == symbol_text(columns, name, b),
        symbol_instant(columns, name, a) == symbol_instant(columns, name, b),
        symbol_ready(columns, name, a) ==> symbol_ready(columns, name, b) && symbol_shown(
            columns,
            name,
            a,
        ) == symbol_shown(columns, name, b),
{
}

/// The column called `symbol`, if the schema has one.
pub fn get_symbol_definition<'a>(tdef: &'a TableDefinition, symbol: &[u8]) -> (r: Option<
    &'a ColumnDefinition,
>)
    ensures
        match r {
            Some(c) => symbol_column(tdef@, symbol@) == Some(c@),
            None => symbol_column(tdef@, symbol@) is None,
        },
{
    tdef.get(symbol)
}

/// The bytes of the column called `symbol` in `item`.
pub fn get_symbol_bytes<'b>(
    tdef: &TableDefinition,
    item: &'b BinaryNginxLogRecord,
    symbol: &[u8],
) -> (r: Option<&'b Vec<u8>>)
    ensures
        match r {
            Some(b) => symbol_bytes(tdef@, symbol@, item@) == Some(b@),
            None => symbol_bytes(tdef@, symbol@, item@) is None,
        },
{
    match get_symbol_definition(tdef, symbol) {
        Some(c) => c.extract_binary(item),
        None => None,
    }
}

/// The number that the column called `symbol` holds in `item`.
pub fn get_symbol_as_integer(
    tdef: &TableDefinition,
    item: &mut BinaryNginxLogRecord,
    symbol: &[u8],
) -> (r: Option<u64>)
    requires
        old(item).wf(),
    ensures
        final(item).wf(),
        old(item)@.extended_by(final(item)@),
        final(item)@.decoded_date == old(item)@.decoded_date,
        r == symbol_integer(tdef@, symbol@, old(item)@),
{
    match get_symbol_definition(tdef, symbol) {
        Some(c) => get_column_value_as_integer(c, item),
        None => None,
    }
}

/// The text that the column called `symbol` holds in `item`.
pub fn get_symbol_string(tdef: &TableDefinition, item: &mut BinaryNginxLogRecord, symbol: &[u8]) -> (r:
    Option<Vec<u8>>)
    requires
        old(item).wf(),
    ensures
        final(item).wf(),
        old(item)@.extended_by(final(item)@),
        final(item)@.decoded_date == old(item)@.decoded_date,
        opt_bytes(r) == symbol_text(tdef@, symbol@, old(item)@),
{
    match get_symbol_definition(tdef, symbol) {
        Some(c) => get_column_value_as_text(c, item),
        None => None,
    }
}

/// The date that the column called `symbol` holds in `item`.
pub fn get_symbol_date(tdef: &TableDefinition, item: &mut BinaryNginxLogRecord, symbol: &[u8]) -> (r:
    Option<DateValue>)
    requires
        old(item).wf(),
    ensures
        final(item).wf(),
        old(item)@.extended_by(final(item)@),
        match r {
            Some(d) => symbol_instant(tdef@, symbol@, old(item)@) == Some(d.seconds),
            None => symbol_instant(tdef@, symbol@, old(item)@) is None,
        },
{
    match get_symbol_definition(tdef, symbol) {
        Some(c) => get_column_value_as_date(c, item),
        None => None,
    }
}

/// What the column called `symbol` shows for `item`.
pub fn get_symbol_as_string(
    tdef: &TableDefinition,
    item: &mut BinaryNginxLogRecord,
    symbol: &[u8],
) -> (r: Option<Vec<u8>>)
    requires
        old(item).wf(),
    ensures
        final(item).wf(),
        old(item)@.extended_by(final(item)@),
        symbol_ready(tdef@, symbol@, final(item)@),
        opt_bytes(r) == symbol_shown(tdef@, symbol@, final(item)@),
{
    match get_symbol_definition(tdef, symbol) {
        Some(c) => get_column_value_as_string(c, item),
        None => None,
    }
}

} // verus!
