use riplog::format::fit_width;
use riplog::format::make_reducer_label;
use riplog::format::push_cell;
use riplog::format::GroupOutputField;
use riplog::format::OutputField;
use riplog::format::RecordFormatter;
use riplog::format::ReducedOutputField;
use riplog::format::SymbolOutputField;
use riplog::nginx::create_nginx_log_record_table_definition;
use riplog::nginx::read_log_record_binary;
use riplog::nginx::BinaryNginxLogRecord;
use riplog::parser::QueryReducer;
use riplog::parser::QuerySortOrdering;
use riplog::reduce::FieldReducer;
use riplog::reduce::Group;
use riplog::reduce::Reducer;
use std::cmp::Ordering;

fn s(bytes: Vec<u8>) -> String {
    String::from_utf8(bytes).unwrap()
}

fn symbol(name: &str, size: usize) -> OutputField {
    OutputField::Symbol(SymbolOutputField { symbol: name.as_bytes().to_vec(), size })
}

fn group(name: &str, idx: usize, size: usize) -> OutputField {
    OutputField::Group(GroupOutputField { symbol: name.as_bytes().to_vec(), idx, size })
}

fn reduced(kind: QueryReducer, name: &str, idx: usize, size: usize) -> OutputField {
    OutputField::Reduced(ReducedOutputField { reducer: kind, symbol: name.as_bytes().to_vec(), idx, size })
}

fn reducer(values: Vec<u64>) -> Reducer {
    Reducer {
        field_reducers: values
            .into_iter()
            .map(|v| FieldReducer::Max(riplog::reduce::MaxReducer { symbol: b"bytes".to_vec(), max: v }))
            .collect(),
    }
}

fn record() -> BinaryNginxLogRecord {
    let buf = b"10.0.0.7 - - [10/Oct/2020:13:55:36 +0200] \"GET /shop/cart?id=7 HTTP/1.1\" 404 1234 \"-\" \"curl/7.64\"\n".to_vec();
    let mut record = BinaryNginxLogRecord::empty();
    assert!(read_log_record_binary(&buf, buf.len(), &mut record));
    record
}

fn sizes(f: &RecordFormatter) -> Vec<usize> {
    f.fields.iter().map(|x| x.size()).collect()
}

#[test]
fn width_grows_to_fit_but_not_beyond_fifty() {
    assert_eq!(fit_width(10, b"abc"), 10);
    assert_eq!(fit_width(3, b"abc"), 3);
    assert_eq!(fit_width(2, b"abc"), 3);
    assert_eq!(fit_width(0, b""), 0);
    assert_eq!(fit_width(10, &[b'x'; 49]), 49);
    assert_eq!(fit_width(10, &[b'x'; 50]), 50);
    assert_eq!(fit_width(10, &[b'x'; 51]), 50);
    assert_eq!(fit_width(10, &[b'x'; 200]), 50);
    assert_eq!(fit_width(50, &[b'x'; 200]), 50);
    assert_eq!(fit_width(60, &[b'x'; 200]), 60);
}

#[test]
fn cell_pads_and_cuts_to_the_width() {
    let mut out = b"|".to_vec();
    push_cell(&mut out, b"ab", 5);
    assert_eq!(s(out), "| ab    ");
    let mut out = Vec::new();
    push_cell(&mut out, b"abcdef", 3);
    assert_eq!(s(out), " abc ");
    let mut out = Vec::new();
    push_cell(&mut out, b"abc", 3);
    assert_eq!(s(out), " abc ");
    let mut out = Vec::new();
    push_cell(&mut out, b"", 0);
    assert_eq!(s(out), "  ");
}

#[test]
fn value_of_two_hundred_bytes_is_shown_in_fifty() {
    let mut field = SymbolOutputField { symbol: b"path".to_vec(), size: 20 };
    let long = vec![b'x'; 200];
    let cell = field.format_field(&long);
    assert_eq!(field.size(), 50);
    assert_eq!(cell.len(), 52);
    assert_eq!(s(cell), format!(" {} ", "x".repeat(50)));
    // The column stays at fifty, and a short value is padded to it.
    let cell = field.format_field(b"ab");
    assert_eq!(field.size(), 50);
    assert_eq!(s(cell), format!(" ab{} ", " ".repeat(48)));
}

#[test]
fn header_cell_grows_the_column_to_its_label() {
    let mut f = SymbolOutputField { symbol: b"status".to_vec(), size: 3 };
    assert_eq!(s(f.header()), " status ");
    assert_eq!(f.size(), 6);
    assert_eq!(s(f.name()), "status");
    let mut g = GroupOutputField { symbol: b"ip".to_vec(), idx: 0, size: 15 };
    assert_eq!(s(g.header()), format!(" ip{} ", " ".repeat(13)));
    assert_eq!(g.size(), 15);
    assert_eq!(s(g.name()), "ip");
    let mut r = ReducedOutputField { reducer: QueryReducer::Avg, symbol: b"user_agent".to_vec(), idx: 0, size: 10 };
    assert_eq!(s(r.name()), "avg(user_agent)");
    assert_eq!(s(r.header()), " avg(user_agent) ");
    assert_eq!(r.size(), 15);
    assert_eq!(s(make_reducer_label(QueryReducer::Count, b"*")), "count(*)");
}

#[test]
fn fields_show_null_where_the_row_has_no_value() {
    let schema = create_nginx_log_record_table_definition();
    let key = vec![b"k0".to_vec(), b"k1".to_vec()];
    let red = reducer(vec![7, 8]);
    let mut r = record();
    assert_eq!(s(symbol("path", 1).record_text(&schema, &mut r)), "/shop/cart");
    assert_eq!(s(symbol("referrer", 1).record_text(&schema, &mut r)), "null");
    assert_eq!(s(symbol("nope", 1).record_text(&schema, &mut r)), "null");
    assert_eq!(s(group("ip", 0, 1).record_text(&schema, &mut r)), "null");
    assert_eq!(s(reduced(QueryReducer::Max, "bytes", 0, 1).record_text(&schema, &mut r)), "null");
    assert_eq!(s(symbol("path", 1).group_text(Some(&key), &red)), "null");
    assert_eq!(s(group("ip", 1, 1).group_text(Some(&key), &red)), "k1");
    assert_eq!(s(group("ip", 2, 1).group_text(Some(&key), &red)), "null");
    assert_eq!(s(group("ip", 0, 1).group_text(None, &red)), "null");
    assert_eq!(s(reduced(QueryReducer::Max, "bytes", 1, 1).group_text(Some(&key), &red)), "8");
    assert_eq!(s(reduced(QueryReducer::Max, "bytes", 0, 1).group_text(None, &red)), "7");
    assert_eq!(s(reduced(QueryReducer::Max, "bytes", 2, 1).group_text(None, &red)), "null");
}

#[test]
fn header_rows_and_closing_line() {
    let mut f = RecordFormatter { fields: vec![symbol("ip", 4), symbol("status", 3)], sort: None };
    let header: Vec<String> = f.format_header_row().into_iter().map(s).collect();
    assert_eq!(header, vec!["+---------------+", "| ip   | status |", "|---------------|"]);
    assert_eq!(sizes(&f), vec![4, 6]);
    let schema = create_nginx_log_record_table_definition();
    let mut r = record();
    assert_eq!(s(f.format_record(&schema, &mut r)), "| 10.0.0.7 | 404    |");
    assert_eq!(sizes(&f), vec![8, 6]);
    assert_eq!(s(f.format_closing_row()), "+-------------------+");
    assert_eq!(s(f.format_record(&schema, &mut r)).len(), "+-------------------+".len());
}

#[test]
fn table_without_columns() {
    let mut f = RecordFormatter { fields: vec![], sort: None };
    let header: Vec<String> = f.format_header_row().into_iter().map(s).collect();
    assert_eq!(header, vec!["++", "|", "||"]);
    assert_eq!(s(f.format_closing_row()), "++");
    assert_eq!(s(f.format_reduced_record(&reducer(vec![1]))), "|");
}

#[test]
fn grouped_and_reduced_rows() {
    let mut f = RecordFormatter {
        fields: vec![group("status", 0, 3), reduced(QueryReducer::Max, "bytes", 0, 4), symbol("ip", 2)],
        sort: None,
    };
    let key = vec![b"404".to_vec()];
    assert_eq!(s(f.format_grouped_record(&key, &reducer(vec![12345]))), "| 404 | 12345 | null |");
    assert_eq!(sizes(&f), vec![3, 5, 4]);
    assert_eq!(s(f.format_reduced_record(&reducer(vec![7]))), "| null | 7     | null |");
    assert_eq!(sizes(&f), vec![4, 5, 4]);
    let texts = f.group_texts(Some(&key), &reducer(vec![1]));
    assert_eq!(texts, vec![b"404".to_vec(), b"1".to_vec(), b"null".to_vec()]);
    assert_eq!(s(f.format_texts(&texts)), "| 404  | 1     | null |");
}

#[test]
fn record_row_shows_every_kind_of_column() {
    let schema = create_nginx_log_record_table_definition();
    let mut f = RecordFormatter {
        fields: vec![symbol("method", 5), symbol("query", 1), symbol("bytes", 1), symbol("date", 1)],
        sort: None,
    };
    let mut r = record();
    let local = chrono::DateTime::parse_from_str("10/Oct/2020:13:55:36 +0200", "%d/%b/%Y:%H:%M:%S %z")
        .unwrap()
        .with_timezone(&chrono::Local)
        .to_string();
    assert_eq!(s(f.format_record(&schema, &mut r)), format!("| GET   | ?id=7 | 1234 | {} |", local));
    assert_eq!(local.len(), 26);
    let texts = f.record_texts(&schema, &mut r);
    assert_eq!(texts[3], local.as_bytes());
}

fn one(key: &str, value: u64) -> Group {
    Group { key: vec![key.as_bytes().to_vec()], reducer: reducer(vec![value]) }
}

#[test]
fn groups_compare_by_key_text_or_by_number() {
    let by_key = GroupOutputField { symbol: b"ip".to_vec(), idx: 0, size: 1 };
    let a = vec![b"10".to_vec()];
    let b = vec![b"9".to_vec()];
    let none: Vec<Vec<u8>> = Vec::new();
    assert_eq!(by_key.compare(Some(&a), Some(&b), false), Ordering::Less);
    assert_eq!(by_key.compare(Some(&b), Some(&a), false), Ordering::Greater);
    assert_eq!(by_key.compare(Some(&a), Some(&a), false), Ordering::Equal);
    assert_eq!(by_key.compare(Some(&a), Some(&b), true), Ordering::Greater);
    assert_eq!(by_key.compare(Some(&b), Some(&a), true), Ordering::Less);
    assert_eq!(by_key.compare(Some(&a), Some(&a), true), Ordering::Equal);
    assert_eq!(by_key.compare(Some(&a), Some(&none), false), Ordering::Greater);
    assert_eq!(by_key.compare(Some(&a), None, true), Ordering::Less);
    assert_eq!(by_key.compare(None, Some(&a), false), Ordering::Less);
    assert_eq!(by_key.compare(Some(&none), Some(&a), true), Ordering::Greater);
    assert_eq!(by_key.compare(None, None, false), Ordering::Equal);

    let by_value = ReducedOutputField { reducer: QueryReducer::Max, symbol: b"bytes".to_vec(), idx: 0, size: 1 };
    let ten = reducer(vec![10]);
    let nine = reducer(vec![9]);
    let empty = reducer(vec![]);
    assert_eq!(by_value.compare(Some(&ten), Some(&nine), false), Ordering::Greater);
    assert_eq!(by_value.compare(Some(&nine), Some(&ten), false), Ordering::Less);
    assert_eq!(by_value.compare(Some(&ten), Some(&ten), false), Ordering::Equal);
    assert_eq!(by_value.compare(Some(&ten), Some(&nine), true), Ordering::Less);
    assert_eq!(by_value.compare(Some(&nine), Some(&ten), true), Ordering::Greater);
    assert_eq!(by_value.compare(Some(&ten), Some(&empty), false), Ordering::Greater);
    assert_eq!(by_value.compare(Some(&ten), None, true), Ordering::Less);
    assert_eq!(by_value.compare(None, Some(&ten), false), Ordering::Less);
    assert_eq!(by_value.compare(Some(&empty), Some(&ten), true), Ordering::Greater);
    assert_eq!(by_value.compare(None, None, true), Ordering::Equal);

    let plain = SymbolOutputField { symbol: b"ip".to_vec(), size: 1 };
    assert_eq!(plain.compare(), Ordering::Equal);
}

#[test]
fn formatter_orders_groups_by_its_sort_column() {
    let x = one("10", 9);
    let y = one("9", 10);
    let by_key = RecordFormatter { fields: vec![], sort: Some((group("ip", 0, 1), QuerySortOrdering::ASC)) };
    assert_eq!(by_key.sort_grouped(&x.key, &x.reducer, &y.key, &y.reducer), Ordering::Less);
    assert!(by_key.in_order(&x, &y));
    assert!(!by_key.in_order(&y, &x));
    assert!(by_key.in_order(&x, &x));
    let by_value =
        RecordFormatter { fields: vec![], sort: Some((reduced(QueryReducer::Max, "bytes", 0, 1), QuerySortOrdering::DESC)) };
    assert_eq!(by_value.sort_grouped(&x.key, &x.reducer, &y.key, &y.reducer), Ordering::Greater);
    assert!(!by_value.in_order(&x, &y));
    let unsorted = RecordFormatter { fields: vec![], sort: None };
    assert_eq!(unsorted.sort_grouped(&x.key, &x.reducer, &y.key, &y.reducer), Ordering::Equal);
    let by_plain = RecordFormatter { fields: vec![], sort: Some((symbol("ip", 1), QuerySortOrdering::DESC)) };
    assert_eq!(by_plain.sort_grouped(&x.key, &x.reducer, &y.key, &y.reducer), Ordering::Equal);
}

#[test]
fn sort_puts_the_groups_in_order() {
    let groups = vec![one("b", 2), one("d", 9), one("a", 5), one("c", 5), one("e", 1)];
    let by_key = RecordFormatter { fields: vec![], sort: Some((group("k", 0, 1), QuerySortOrdering::ASC)) };
    assert_eq!(riplog::order::sort_groups(&by_key, &groups), vec![2, 0, 3, 1, 4]);
    let by_key = RecordFormatter { fields: vec![], sort: Some((group("k", 0, 1), QuerySortOrdering::DESC)) };
    assert_eq!(riplog::order::sort_groups(&by_key, &groups), vec![4, 1, 3, 0, 2]);
    let by_value =
        RecordFormatter { fields: vec![], sort: Some((reduced(QueryReducer::Max, "v", 0, 1), QuerySortOrdering::DESC)) };
    let order = riplog::order::sort_groups(&by_value, &groups);
    let values: Vec<u64> = order.iter().map(|i| groups[*i].reducer.result_at(0).unwrap()).collect();
    assert_eq!(values, vec![9, 5, 5, 2, 1]);
    let mut seen = order.clone();
    seen.sort();
    assert_eq!(seen, vec![0, 1, 2, 3, 4]);
    let unsorted = RecordFormatter { fields: vec![], sort: None };
    assert_eq!(riplog::order::sort_groups(&unsorted, &groups), vec![0, 1, 2, 3, 4]);
    assert_eq!(riplog::order::sort_groups(&by_value, &Vec::new()), Vec::<usize>::new());
}
