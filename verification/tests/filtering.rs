use chrono::TimeZone;
use riplog::filter::evaluate_binary_filter;
use riplog::filter::evaluate_eq;
use riplog::filter::evaluate_filter;
use riplog::filter::evaluate_gt;
use riplog::filter::evaluate_lt;
use riplog::filter::evaluate_ne;
use riplog::filter::evaluate_nr;
use riplog::filter::evaluate_re;
use riplog::filter::resolve_byte_value;
use riplog::filter::resolve_date_value;
use riplog::filter::resolve_string_value;
use riplog::grammar::create_date_from_string;
use riplog::nginx::create_nginx_log_record_table_definition;
use riplog::nginx::read_log_record_binary;
use riplog::nginx::BinaryNginxLogRecord;
use riplog::parser::QueryFilter;
use riplog::parser::QueryFilterBinaryOp;
use riplog::parser::QueryValue;
use riplog::pattern::QueryRegex;

fn record() -> BinaryNginxLogRecord {
    let buf = b"10.0.0.7 - - [10/Oct/2020:13:55:36 +0200] \"GET /shop/cart?id=7 HTTP/1.1\" 404 1234 \"-\" \"curl/7.64\"\n".to_vec();
    let mut record = BinaryNginxLogRecord::empty();
    assert!(read_log_record_binary(&buf, buf.len(), &mut record));
    record
}

fn sym(name: &str) -> QueryValue {
    QueryValue::Symbol(name.as_bytes().to_vec())
}

fn text(t: &str) -> QueryValue {
    QueryValue::Text(t.as_bytes().to_vec())
}

fn number(t: &str) -> QueryValue {
    QueryValue::Int(t.parse().unwrap(), t.as_bytes().to_vec())
}

fn pattern(p: &str) -> QueryValue {
    QueryValue::Regex(QueryRegex::new(p.as_bytes()).unwrap())
}

fn date(t: &str) -> QueryValue {
    QueryValue::Date(create_date_from_string(t.as_bytes()).unwrap(), t.as_bytes().to_vec())
}

fn holds(a: QueryValue, op: QueryFilterBinaryOp, b: QueryValue) -> bool {
    let schema = create_nginx_log_record_table_definition();
    let mut r = record();
    evaluate_binary_filter(&a, &b, &op, &schema, &mut r)
}

#[test]
fn eq_compares_bytes() {
    assert!(holds(sym("status"), QueryFilterBinaryOp::Eq, number("404")));
    assert!(!holds(sym("status"), QueryFilterBinaryOp::Eq, number("0404")));
    assert!(holds(sym("ip"), QueryFilterBinaryOp::Eq, text("10.0.0.7")));
    assert!(!holds(sym("ip"), QueryFilterBinaryOp::Eq, text("10.0.0.70")));
    assert!(holds(sym("method"), QueryFilterBinaryOp::Eq, sym("method")));
    assert!(holds(text("a"), QueryFilterBinaryOp::Eq, text("a")));
    assert!(holds(sym("bytes"), QueryFilterBinaryOp::Eq, QueryValue::Double(b"1234".to_vec())));
    assert!(!holds(QueryValue::Boolean(true), QueryFilterBinaryOp::Eq, QueryValue::Boolean(true)));
    assert!(!holds(sym("no_such_column"), QueryFilterBinaryOp::Eq, text("x")));
}

#[test]
fn eq_null_holds_for_a_missing_value() {
    assert!(holds(sym("referrer"), QueryFilterBinaryOp::Eq, QueryValue::Null));
    assert!(!holds(sym("user_agent"), QueryFilterBinaryOp::Eq, QueryValue::Null));
    assert!(!holds(sym("status"), QueryFilterBinaryOp::Eq, QueryValue::Null));
    assert!(holds(sym("no_such_column"), QueryFilterBinaryOp::Eq, QueryValue::Null));
    assert!(!holds(text(""), QueryFilterBinaryOp::Eq, QueryValue::Null));
    assert!(!holds(QueryValue::Null, QueryFilterBinaryOp::Eq, QueryValue::Null));
}

#[test]
fn ne_needs_a_left_side() {
    assert!(holds(sym("status"), QueryFilterBinaryOp::Ne, number("200")));
    assert!(!holds(sym("status"), QueryFilterBinaryOp::Ne, number("404")));
    assert!(holds(sym("user_agent"), QueryFilterBinaryOp::Ne, QueryValue::Null));
    assert!(!holds(sym("referrer"), QueryFilterBinaryOp::Ne, QueryValue::Null));
    assert!(!holds(sym("referrer"), QueryFilterBinaryOp::Ne, text("x")));
    assert!(!holds(sym("status"), QueryFilterBinaryOp::Ne, sym("referrer")));
}

#[test]
fn lt_and_gt_go_by_lexicographic_order() {
    assert!(holds(sym("status"), QueryFilterBinaryOp::Gt, number("300")));
    assert!(!holds(sym("status"), QueryFilterBinaryOp::Lt, number("300")));
    assert!(holds(sym("status"), QueryFilterBinaryOp::Lt, number("5")));
    assert!(holds(sym("bytes"), QueryFilterBinaryOp::Lt, number("200")));
    assert!(!holds(sym("status"), QueryFilterBinaryOp::Lt, number("404")));
    assert!(!holds(sym("status"), QueryFilterBinaryOp::Gt, number("404")));
    assert!(holds(sym("status"), QueryFilterBinaryOp::Lt, number("4040")));
    assert!(holds(sym("method"), QueryFilterBinaryOp::Lt, text("HEAD")));
    assert!(holds(sym("method"), QueryFilterBinaryOp::Gt, text("")));
    assert!(holds(sym("method"), QueryFilterBinaryOp::Gt, QueryValue::Null));
    assert!(!holds(sym("method"), QueryFilterBinaryOp::Lt, QueryValue::Null));
    assert!(!holds(sym("referrer"), QueryFilterBinaryOp::Lt, text("zzz")));
    assert!(!holds(sym("referrer"), QueryFilterBinaryOp::Gt, text("")));
    assert!(!holds(text("a"), QueryFilterBinaryOp::Lt, sym("referrer")));
}

#[test]
fn dates_are_compared_as_instants() {
    // The record is stamped 13:55:36 +0200, which is 11:55:36 UTC.
    assert!(holds(sym("date"), QueryFilterBinaryOp::Gt, date("10-10-2020 11:55:35 +0000")));
    assert!(!holds(sym("date"), QueryFilterBinaryOp::Gt, date("10-10-2020 11:55:36 +0000")));
    assert!(!holds(sym("date"), QueryFilterBinaryOp::Lt, date("10-10-2020 11:55:36 +0000")));
    assert!(holds(sym("date"), QueryFilterBinaryOp::Lt, date("10-10-2020 11:55:37 +0000")));
    assert!(holds(sym("date"), QueryFilterBinaryOp::Lt, date("10-10-2020 13:55:36 +0100")));
    assert!(holds(sym("date"), QueryFilterBinaryOp::Gt, date("10-10-2020 13:55:36 +0300")));
    // Only a date column stands against a date.
    assert!(!holds(sym("status"), QueryFilterBinaryOp::Lt, date("10-10-2030 11:55:37 +0000")));
    assert!(!holds(text("x"), QueryFilterBinaryOp::Lt, date("10-10-2030 11:55:37 +0000")));
    // A date has no bytes.
    assert!(!holds(sym("date"), QueryFilterBinaryOp::Eq, date("10-10-2020 11:55:36 +0000")));
}

#[test]
fn date_literal_names_the_instant() {
    assert_eq!(create_date_from_string(b"10-10-2020 11:55:36 +0000"), Some(1602330936));
    assert_eq!(create_date_from_string(b"10-10-2020 13:55:36 +0200"), Some(1602330936));
    assert_eq!(create_date_from_string(b"01-01-1970 00:00:00 +0000"), Some(0));
    assert_eq!(create_date_from_string(b"13-45-2020 11:55:36 +0000"), None);
    assert_eq!(create_date_from_string(b"10-10-2020 11:55:36 nozone"), None);
    assert_eq!(create_date_from_string(b"\xff\xfe-10-2020 11:55:36 +0000"), None);
}

#[test]
fn date_literal_without_zone_is_read_in_the_local_zone() {
    let expect = chrono::Local.with_ymd_and_hms(2020, 10, 9, 0, 0, 0).single().map(|d| d.timestamp());
    assert_eq!(create_date_from_string(b"10-09-2020"), expect);
    let expect = chrono::Local.with_ymd_and_hms(2020, 10, 9, 7, 8, 9).single().map(|d| d.timestamp());
    assert_eq!(create_date_from_string(b"10-09-2020 07:08:09"), expect);
    assert_eq!(create_date_from_string(b"99-99-2020"), None);
    assert_eq!(create_date_from_string(b""), None);
}

#[test]
fn re_matches_a_text_column() {
    assert!(holds(sym("ip"), QueryFilterBinaryOp::Re, pattern(r"^10\.0\.")));
    assert!(!holds(sym("ip"), QueryFilterBinaryOp::Re, pattern(r"^11\.")));
    assert!(holds(sym("path"), QueryFilterBinaryOp::Re, pattern("cart$")));
    assert!(holds(sym("user_agent"), QueryFilterBinaryOp::Re, pattern(r"curl/\d+")));
    assert!(holds(sym("path"), QueryFilterBinaryOp::Re, text("op/ca")));
    assert!(holds(sym("path"), QueryFilterBinaryOp::Re, text("")));
    assert!(!holds(sym("path"), QueryFilterBinaryOp::Re, text("cartx")));
    // Missing, not a text column, or not a column at all.
    assert!(!holds(sym("referrer"), QueryFilterBinaryOp::Re, pattern(".*")));
    assert!(!holds(sym("status"), QueryFilterBinaryOp::Re, pattern("4")));
    assert!(!holds(text("abc"), QueryFilterBinaryOp::Re, pattern("b")));
    assert!(!holds(sym("path"), QueryFilterBinaryOp::Re, number("1")));
}

#[test]
fn nr_needs_a_text_on_the_left() {
    assert!(holds(sym("ip"), QueryFilterBinaryOp::Nr, pattern(r"^11\.")));
    assert!(!holds(sym("ip"), QueryFilterBinaryOp::Nr, pattern(r"^10\.")));
    assert!(!holds(sym("path"), QueryFilterBinaryOp::Nr, text("cart")));
    assert!(holds(sym("path"), QueryFilterBinaryOp::Nr, text("basket")));
    assert!(!holds(sym("referrer"), QueryFilterBinaryOp::Nr, pattern("x")));
    assert!(!holds(sym("status"), QueryFilterBinaryOp::Nr, pattern("x")));
}

#[test]
fn regex_keeps_its_pattern_and_refuses_a_bad_one() {
    let re = QueryRegex::new(b"a+b").unwrap();
    assert_eq!(re.pattern(), b"a+b");
    assert!(re.is_match(b"xxaaab"));
    assert!(!re.is_match(b"xxb"));
    assert!(QueryRegex::new(b"(unclosed").is_none());
    assert!(QueryRegex::new(b"\xff").is_none());
}

#[test]
fn named_comparisons_agree_with_the_dispatch() {
    let schema = create_nginx_log_record_table_definition();
    let mut r = record();
    assert!(evaluate_eq(&sym("status"), &number("404"), &schema, &r));
    assert!(evaluate_ne(&sym("status"), &number("200"), &schema, &r));
    assert!(evaluate_lt(&sym("status"), &number("5"), &schema, &mut r));
    assert!(evaluate_gt(&sym("status"), &number("3"), &schema, &mut r));
    assert!(evaluate_re(&sym("ip"), &text("0.0"), &schema, &mut r));
    assert!(evaluate_nr(&sym("ip"), &text("9.9"), &schema, &mut r));
}

#[test]
fn operands_resolve_to_bytes_text_and_instant() {
    let schema = create_nginx_log_record_table_definition();
    let mut r = record();
    let empty: Vec<u8> = Vec::new();
    assert_eq!(resolve_byte_value(&sym("status"), &schema, &r, &empty), Some(&b"404".to_vec()));
    assert_eq!(resolve_byte_value(&number("7"), &schema, &r, &empty), Some(&b"7".to_vec()));
    assert_eq!(resolve_byte_value(&QueryValue::Null, &schema, &r, &empty), Some(&empty));
    assert_eq!(resolve_byte_value(&sym("referrer"), &schema, &r, &empty), None);
    assert_eq!(resolve_byte_value(&QueryValue::Boolean(false), &schema, &r, &empty), None);
    assert_eq!(resolve_string_value(&sym("path"), &schema, &mut r), Some(b"/shop/cart".to_vec()));
    assert_eq!(resolve_string_value(&text("t"), &schema, &mut r), Some(b"t".to_vec()));
    assert_eq!(resolve_string_value(&sym("status"), &schema, &mut r), None);
    assert_eq!(resolve_date_value(&sym("date"), &schema, &mut r), Some(1602330936));
    assert_eq!(resolve_date_value(&QueryValue::Date(9, Vec::new()), &schema, &mut r), Some(9));
    assert_eq!(resolve_date_value(&sym("ip"), &schema, &mut r), None);
}

fn cmp(a: QueryValue, op: QueryFilterBinaryOp, b: QueryValue) -> QueryFilter {
    QueryFilter::BinaryOpFilter(a, b, op)
}

#[test]
fn and_or_join_comparisons() {
    let schema = create_nginx_log_record_table_definition();
    let yes = || cmp(sym("status"), QueryFilterBinaryOp::Eq, number("404"));
    let no = || cmp(sym("status"), QueryFilterBinaryOp::Eq, number("200"));
    let mut r = record();
    assert!(evaluate_filter(&yes(), &schema, &mut r));
    assert!(!evaluate_filter(&no(), &schema, &mut r));
    assert!(evaluate_filter(&QueryFilter::AndFilter(Box::new(yes()), Box::new(yes())), &schema, &mut r));
    assert!(!evaluate_filter(&QueryFilter::AndFilter(Box::new(yes()), Box::new(no())), &schema, &mut r));
    assert!(!evaluate_filter(&QueryFilter::AndFilter(Box::new(no()), Box::new(yes())), &schema, &mut r));
    assert!(evaluate_filter(&QueryFilter::OrFilter(Box::new(no()), Box::new(yes())), &schema, &mut r));
    assert!(evaluate_filter(&QueryFilter::OrFilter(Box::new(yes()), Box::new(no())), &schema, &mut r));
    assert!(!evaluate_filter(&QueryFilter::OrFilter(Box::new(no()), Box::new(no())), &schema, &mut r));
    let nested = QueryFilter::AndFilter(
        Box::new(QueryFilter::OrFilter(Box::new(no()), Box::new(yes()))),
        Box::new(QueryFilter::OrFilter(Box::new(no()), Box::new(no()))),
    );
    assert!(!evaluate_filter(&nested, &schema, &mut r));
}
