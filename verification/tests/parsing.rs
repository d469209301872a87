use riplog::grammar::parse_filter_operator;
use riplog::grammar::parse_grouping;
use riplog::grammar::parse_limit;
use riplog::grammar::parse_query;
use riplog::grammar::parse_show;
use riplog::grammar::parse_show_element;
use riplog::grammar::parse_sort;
use riplog::grammar::parse_value;
use riplog::grammar::scan;
use riplog::grammar::Class;
use riplog::grammar::QueryParseError;
use riplog::parser::QueryFilter;
use riplog::parser::QueryFilterBinaryOp;
use riplog::parser::QueryShowElement;
use riplog::parser::QuerySortOrdering;
use riplog::parser::QueryValue;
use riplog::parser::RipLogQuery;

fn parse(text: &str) -> RipLogQuery {
    match parse_query(text.as_bytes()) {
        Ok(q) => q,
        Err(e) => panic!("{}: {:?}", text, e),
    }
}

fn refused(text: &str) -> QueryParseError {
    match parse_query(text.as_bytes()) {
        Ok(_) => panic!("{}: accepted", text),
        Err(e) => e,
    }
}

fn value(v: &QueryValue) -> String {
    match v {
        QueryValue::Symbol(s) => format!("sym:{}", String::from_utf8_lossy(s)),
        QueryValue::Text(s) => format!("text:{}", String::from_utf8_lossy(s)),
        QueryValue::Regex(r) => format!("re:{}", String::from_utf8_lossy(r.pattern())),
        QueryValue::Int(i, s) => format!("int:{}:{}", i, String::from_utf8_lossy(s)),
        QueryValue::Double(s) => format!("dbl:{}", String::from_utf8_lossy(s)),
        QueryValue::Boolean(b) => format!("bool:{}", b),
        QueryValue::Date(d, s) => format!("date:{}:{}", d, String::from_utf8_lossy(s)),
        QueryValue::Null => "null".to_string(),
    }
}

fn op(o: &QueryFilterBinaryOp) -> &'static str {
    match o {
        QueryFilterBinaryOp::Lt => "<",
        QueryFilterBinaryOp::Gt => ">",
        QueryFilterBinaryOp::Eq => "=",
        QueryFilterBinaryOp::Ne => "!=",
        QueryFilterBinaryOp::Re => "~",
        QueryFilterBinaryOp::Nr => "!~",
    }
}

fn filter(f: &QueryFilter) -> String {
    match f {
        QueryFilter::BinaryOpFilter(a, b, o) => format!("[{} {} {}]", value(a), op(o), value(b)),
        QueryFilter::AndFilter(l, r) => format!("and({}, {})", filter(l), filter(r)),
        QueryFilter::OrFilter(l, r) => format!("or({}, {})", filter(l), filter(r)),
    }
}

fn element(e: &QueryShowElement) -> String {
    match e {
        QueryShowElement::All => "*".to_string(),
        QueryShowElement::Symbol(s) => String::from_utf8(s.clone()).unwrap(),
        QueryShowElement::Reducer(r, s) => format!(
            "{}({})",
            String::from_utf8(r.to_string()).unwrap(),
            String::from_utf8(s.clone()).unwrap()
        ),
    }
}

fn shape(q: &RipLogQuery) -> String {
    let mut parts: Vec<String> = Vec::new();
    if let Some(f) = &q.filter {
        parts.push(filter(f));
    }
    if let Some(g) = &q.grouping {
        let names: Vec<String> = g.groupings.iter().map(|n| String::from_utf8(n.clone()).unwrap()).collect();
        parts.push(format!("group {}", names.join(",")));
    }
    if let Some(s) = &q.show {
        let names: Vec<String> = s.elements.iter().map(element).collect();
        parts.push(format!("show {}", names.join(",")));
    }
    if let Some(s) = &q.sort {
        assert_eq!(s.sortings.len(), 1);
        let dir = match s.sortings[0].order {
            QuerySortOrdering::ASC => "asc",
            QuerySortOrdering::DESC => "desc",
        };
        parts.push(format!("sort {} {}", String::from_utf8(s.sortings[0].field.clone()).unwrap(), dir));
    }
    if let Some(l) = &q.limit {
        parts.push(format!("limit {}", l.limit));
    }
    assert!(q.computed_show.is_none());
    parts.join(" | ")
}

#[test]
fn parses_the_whole_pipeline() {
    let q = parse("status = 200 | group ip | show count(*) | sort count(*) desc | limit 10");
    assert_eq!(
        shape(&q),
        "[sym:status = int:200:200] | group ip | show count(*) | sort count(*) desc | limit 10"
    );
}

#[test]
fn every_part_is_optional() {
    assert_eq!(shape(&parse("")), "");
    assert_eq!(shape(&parse("   \t\n ")), "");
    assert_eq!(shape(&parse("group ip")), "group ip");
    assert_eq!(shape(&parse("| group ip")), "group ip");
    assert_eq!(shape(&parse("show *")), "show *");
    assert_eq!(shape(&parse("sort ip")), "sort ip asc");
    assert_eq!(shape(&parse("limit 3")), "limit 3");
    assert_eq!(shape(&parse("|limit 3")), "limit 3");
    assert_eq!(shape(&parse("ip = \"1.1.1.1\"")), "[sym:ip = text:1.1.1.1]");
    assert_eq!(shape(&parse("ip = null | limit 0")), "[sym:ip = null] | limit 0");
    assert_eq!(shape(&parse("group ip | limit 2")), "group ip | limit 2");
    assert_eq!(shape(&parse("show ip | sort ip desc")), "show ip | sort ip desc");
}

#[test]
fn stages_come_in_any_order() {
    assert_eq!(shape(&parse("limit 3 | group ip")), "group ip | limit 3");
    assert_eq!(shape(&parse("show ip | group ip")), "group ip | show ip");
    assert_eq!(shape(&parse("| sort ip | show ip")), "show ip | sort ip asc");
    assert_eq!(
        shape(&parse("a = 1 | limit 2 | sort ip desc | show ip | group ip")),
        "[sym:a = int:1:1] | group ip | show ip | sort ip desc | limit 2"
    );
}

#[test]
fn keywords_and_symbols_ignore_case() {
    let q = parse("STATUS = 200 AND Ip != NULL | GROUP Ip , Status | SHOW Count(*), SUM(Bytes) | SORT Sum(Bytes) DESC | LIMIT 5");
    assert_eq!(
        shape(&q),
        "and([sym:status = int:200:200], [sym:ip != null]) | group ip,status | show count(*),sum(bytes) | sort sum(bytes) desc | limit 5"
    );
    assert_eq!(shape(&parse("a = TRUE or b = False")), "or([sym:a = bool:true], [sym:b = bool:false])");
}

#[test]
fn blanks_may_be_left_out_or_added() {
    assert_eq!(shape(&parse("status=200|group ip|limit 1")), "[sym:status = int:200:200] | group ip | limit 1");
    assert_eq!(shape(&parse("  status  !=\t200  |  show   ip ,path  ")), "[sym:status != int:200:200] | show ip,path");
    assert_eq!(shape(&parse("show count( * ) , max( bytes )")), "show count(*),max(bytes)");
    assert_eq!(shape(&parse("(ip=\"a\")")), "[sym:ip = text:a]");
}

#[test]
fn values_of_every_kind() {
    assert_eq!(shape(&parse("a = \"some text | and more\"")), "[sym:a = text:some text | and more]");
    assert_eq!(shape(&parse("a = \"\"")), "[sym:a = text:]");
    assert_eq!(shape(&parse("a ~ r\"^/x/[0-9]+$\"")), "[sym:a ~ re:^/x/[0-9]+$]");
    assert_eq!(shape(&parse("a < 12")), "[sym:a < int:12:12]");
    assert_eq!(shape(&parse("a < 007")), "[sym:a < int:7:007]");
    assert_eq!(shape(&parse("a > 1.50")), "[sym:a > dbl:1.50]");
    assert_eq!(shape(&parse("a > 9223372036854775807")), "[sym:a > int:9223372036854775807:9223372036854775807]");
    assert_eq!(shape(&parse("a = b_2")), "[sym:a = sym:b_2]");
    assert_eq!(shape(&parse("a = 2xx")), "[sym:a = sym:2xx]");
    assert_eq!(shape(&parse("a = nullable")), "[sym:a = sym:nullable]");
    assert_eq!(shape(&parse("r = d")), "[sym:r = sym:d]");
    assert_eq!(shape(&parse("\"x\" = 1")), "[text:x = int:1:1]");
    assert_eq!(
        shape(&parse("date > d\"10-10-2020 11:55:36 +0000\"")),
        "[sym:date > date:1602330936:10-10-2020 11:55:36 +0000]"
    );
    assert_eq!(
        shape(&parse("date < d\"10-10-2020 13:55:36 +0200\"")),
        "[sym:date < date:1602330936:10-10-2020 13:55:36 +0200]"
    );
}

#[test]
fn every_operator() {
    for (text, expect) in
        [("<", "<"), (">", ">"), ("=", "="), ("!=", "!="), ("~", "~"), ("!~", "!~")]
    {
        let q = parse(&format!("a {} b", text));
        assert_eq!(shape(&q), format!("[sym:a {} sym:b]", expect));
    }
}

#[test]
fn and_binds_tighter_than_or_and_both_nest_to_the_right() {
    assert_eq!(
        shape(&parse("a = 1 or b = 2 and c = 3 or d = 4")),
        "or([sym:a = int:1:1], or(and([sym:b = int:2:2], [sym:c = int:3:3]), [sym:d = int:4:4]))"
    );
    assert_eq!(
        shape(&parse("a = 1 and b = 2 and c = 3")),
        "and([sym:a = int:1:1], and([sym:b = int:2:2], [sym:c = int:3:3]))"
    );
    assert_eq!(
        shape(&parse("a = 1 && b = 2 || c = 3")),
        "or(and([sym:a = int:1:1], [sym:b = int:2:2]), [sym:c = int:3:3])"
    );
    assert_eq!(
        shape(&parse("(a = 1 or b = 2) and ((c = 3))")),
        "and(or([sym:a = int:1:1], [sym:b = int:2:2]), [sym:c = int:3:3])"
    );
    assert_eq!(
        shape(&parse("a = 1 || b = 2 | limit 1")),
        "or([sym:a = int:1:1], [sym:b = int:2:2]) | limit 1"
    );
}

#[test]
fn show_elements() {
    assert_eq!(shape(&parse("show *, ip, count(ip), sum(bytes), max(bytes), avg(bytes), count")), "show *,ip,count(ip),sum(bytes),max(bytes),avg(bytes),count");
    assert_eq!(shape(&parse("show counter")), "show counter");
    assert_eq!(shape(&parse("show median")), "show median");
}

#[test]
fn sort_takes_a_label_and_a_direction() {
    assert_eq!(shape(&parse("sort count(*)")), "sort count(*) asc");
    assert_eq!(shape(&parse("sort AVG(Bytes) asc")), "sort avg(bytes) asc");
    assert_eq!(shape(&parse("sort ip desc | limit 1")), "sort ip desc | limit 1");
    assert_eq!(shape(&parse("sort desc")), "sort desc asc");
    assert_eq!(shape(&parse("sort asc desc")), "sort asc desc");
}

#[test]
fn syntax_errors() {
    for text in [
        "status",
        "status =",
        "= 200",
        "status = 200 and",
        "status = 200 or | limit 1",
        "status == 200",
        "status ! 200",
        "status = 200 extra",
        "status = \"unclosed",
        "status ~ r\"unclosed",
        "date > d\"unclosed",
        "(status = 200",
        "status = 200)",
        "()",
        "status = 200 group ip",
        "status = 200 |",
        "status = 200 | | limit 1",
        "group",
        "group ip,",
        "group ip status",
        "group ip | group status",
        "show",
        "show ip,",
        "show count(",
        "show count(*",
        "show count()",
        "show sum(a b)",
        "show count (*)",
        "sort",
        "sort ip up",
        "limit",
        "limit x",
        "limit -1",
        "limit 1.5",
        "show ip | show path",
        "sort ip | limit 1 | sort path",
        "limit 1 | group ip | limit 2",
        "limit 3 group ip",
        "limit 1 limit 2",
        "grouping ip",
        "status = 200 | where ip",
        "a = b.c",
        "a = 1.",
        "a = 'text'",
    ] {
        assert_eq!(refused(text), QueryParseError::Syntax, "{}", text);
    }
}

#[test]
fn other_errors() {
    assert_eq!(refused("path ~ r\"(unclosed\""), QueryParseError::BadRegex);
    assert_eq!(refused("path ~ r\"a{2,1}\""), QueryParseError::BadRegex);
    assert_eq!(refused("date > d\"13-45-2020 11:55:36 +0000\""), QueryParseError::BadDate);
    assert_eq!(refused("date > d\"this is not a date at all\""), QueryParseError::BadDate);
    assert_eq!(refused("date > d\"99-99-2020\""), QueryParseError::BadDate);
    assert_eq!(refused("a = 9223372036854775808"), QueryParseError::BadNumber);
    assert_eq!(refused("limit 99999999999999999999999999"), QueryParseError::BadNumber);
    // The error that comes first in the text is the one reported.
    assert_eq!(refused("path ~ r\"(\" | limit 99999999999999999999999999"), QueryParseError::BadRegex);
    assert_eq!(refused("a = 9223372036854775808 and path ~ r\"(\""), QueryParseError::BadNumber);
    assert_eq!(refused("path ~ r\"(\" and"), QueryParseError::BadRegex);
    // A date that is read in the local zone is refused only where the text is a query.
    assert_eq!(refused("date > d\"99-99-2020\" and"), QueryParseError::Syntax);
    assert_eq!(refused("date > d\"99-99-2020\" | limit 99999999999999999999999999"), QueryParseError::BadNumber);
}

#[test]
fn date_without_zone_is_read_in_the_local_zone() {
    use_local("10-09-2020", 2020, 10, 9, 0, 0, 0);
    use_local("10-09-2020 07:08:09", 2020, 10, 9, 7, 8, 9);
}

fn use_local(text: &str, y: i32, mo: u32, d: u32, h: u32, mi: u32, s: u32) {
    let expect = chrono::TimeZone::with_ymd_and_hms(&chrono::Local, y, mo, d, h, mi, s).single().unwrap().timestamp();
    let q = parse(&format!("date > d\"{}\"", text));
    assert_eq!(shape(&q), format!("[sym:date > date:{}:{}]", expect, text));
}

#[test]
fn pieces_of_the_grammar() {
    assert_eq!(scan(b"   x", Class::Blank, 0), 3);
    assert_eq!(scan(b"ab_1-", Class::Word, 0), 4);
    assert_eq!(scan(b"count(*) x", Class::Label, 0), 8);
    assert_eq!(scan(b"123a", Class::Digit, 0), 3);
    assert_eq!(scan(b"123a", Class::Digit, 3), 3);
    assert_eq!(scan(b"123", Class::Digit, 3), 3);
    assert_eq!(parse_filter_operator(b"a != b", 2), Some((QueryFilterBinaryOp::Ne, 4)));
    assert_eq!(parse_filter_operator(b"a != b", 0), None);
    assert_eq!(parse_filter_operator(b"!", 0), None);
    let mut failed = false;
    let (v, end) = parse_value(b"x = Abc", 4, &mut failed).ok().unwrap();
    assert_eq!((value(&v), end, failed), ("sym:abc".to_string(), 7, false));
    let (v, end) = parse_value(b"d\"99-99-2020\"", 0, &mut failed).ok().unwrap();
    assert_eq!((value(&v), end, failed), ("date:0:99-99-2020".to_string(), 13, true));
    let (g, end) = parse_grouping(b"ip , Status | x", 0).unwrap();
    assert_eq!((g.groupings, end), (vec![b"ip".to_vec(), b"status".to_vec()], 11));
    assert!(parse_grouping(b", ip", 0).is_none());
    let (e, end) = parse_show_element(b"SUM( Bytes ) ,", 0).unwrap();
    assert_eq!((element(&e), end), ("sum(bytes)".to_string(), 12));
    let (s, end) = parse_show(b"*,ip", 0).unwrap();
    assert_eq!((s.elements.len(), end), (2, 4));
    let (s, end) = parse_sort(b"ip  DESC|", 0).unwrap();
    assert_eq!((s.sortings[0].order, end), (QuerySortOrdering::DESC, 8));
    let (l, end) = parse_limit(b"0012 ", 0).ok().unwrap();
    assert_eq!((l.limit, end), (12, 4));
    assert_eq!(parse_limit(b"x", 0).err(), Some(QueryParseError::Syntax));
}
