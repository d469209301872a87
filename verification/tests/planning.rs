use riplog::format::get_group_idx;
use riplog::format::get_reduce_idx;
use riplog::format::OutputField;
use riplog::format::RecordFormatter;
use riplog::nginx::create_nginx_log_record_table_definition;
use riplog::parser::QueryFilter;
use riplog::parser::QueryFilterBinaryOp;
use riplog::parser::QueryGrouping;
use riplog::parser::QueryReducer;
use riplog::parser::QueryShow;
use riplog::parser::QueryShowElement;
use riplog::parser::QuerySort;
use riplog::parser::QuerySortElement;
use riplog::parser::QuerySortOrdering;
use riplog::parser::QueryValue;
use riplog::parser::RipLogQuery;
use riplog::query::is_aggregate_query;
use riplog::validate::validate_riplog_query;
use riplog::validate::validate_symbol;

fn sym(name: &str) -> QueryShowElement {
    QueryShowElement::Symbol(name.as_bytes().to_vec())
}

fn red(kind: QueryReducer, name: &str) -> QueryShowElement {
    QueryShowElement::Reducer(kind, name.as_bytes().to_vec())
}

fn query(show: Option<Vec<QueryShowElement>>, grouping: Option<Vec<&str>>) -> RipLogQuery {
    RipLogQuery {
        filter: None,
        grouping: grouping
            .map(|g| QueryGrouping { groupings: g.iter().map(|s| s.as_bytes().to_vec()).collect() }),
        show: show.map(|elements| QueryShow { elements }),
        sort: None,
        limit: None,
        computed_show: None,
    }
}

fn label(e: &QueryShowElement) -> String {
    match e {
        QueryShowElement::All => "*".to_string(),
        QueryShowElement::Symbol(s) => String::from_utf8(s.clone()).unwrap(),
        QueryShowElement::Reducer(r, s) => format!(
            "{}({})",
            String::from_utf8(r.to_string()).unwrap(),
            String::from_utf8(s.clone()).unwrap()
        ),
    }
}

fn computed(q: &mut RipLogQuery) -> Vec<String> {
    let schema = create_nginx_log_record_table_definition();
    q.compute_show(&schema);
    q.computed_show.as_ref().unwrap().elements.iter().map(label).collect()
}

const ALL: [&str; 9] =
    ["ip", "date", "method", "path", "query", "status", "bytes", "referrer", "user_agent"];

#[test]
fn show_plan_without_show_or_grouping_is_every_column() {
    assert_eq!(computed(&mut query(None, None)), ALL.to_vec());
}

#[test]
fn show_plan_without_show_is_grouping_and_count() {
    assert_eq!(computed(&mut query(None, Some(vec!["status", "ip"]))), vec!["status", "ip", "count(*)"]);
}

#[test]
fn show_plan_with_star_is_every_column() {
    assert_eq!(computed(&mut query(Some(vec![QueryShowElement::All]), None)), ALL.to_vec());
    assert_eq!(computed(&mut query(Some(vec![sym("ip"), QueryShowElement::All]), None)), ALL.to_vec());
}

#[test]
fn show_plan_with_star_and_grouping_is_grouping_and_count() {
    assert_eq!(
        computed(&mut query(Some(vec![QueryShowElement::All]), Some(vec!["ip"]))),
        vec!["ip", "count(*)"]
    );
}

#[test]
fn show_plan_with_reducers_and_grouping_drops_the_plain_columns() {
    let show = vec![sym("path"), red(QueryReducer::Sum, "bytes"), sym("ip"), red(QueryReducer::Max, "status")];
    assert_eq!(
        computed(&mut query(Some(show), Some(vec!["method"]))),
        vec!["method", "sum(bytes)", "max(status)"]
    );
}

#[test]
fn show_plan_with_reducers_alone_keeps_only_the_reducers() {
    let show = vec![sym("path"), red(QueryReducer::Avg, "bytes"), QueryShowElement::All];
    assert_eq!(computed(&mut query(Some(show), None)), vec!["avg(bytes)"]);
}

#[test]
fn show_plan_with_plain_columns_is_as_written() {
    let show = vec![sym("path"), sym("ip"), sym("path")];
    assert_eq!(computed(&mut query(Some(show), None)), vec!["path", "ip", "path"]);
    let show = vec![sym("path"), sym("ip")];
    assert_eq!(computed(&mut query(Some(show), Some(vec!["ip"]))), vec!["path", "ip"]);
}

#[test]
fn show_plan_of_a_show_plan_is_itself() {
    let cases: Vec<(Option<Vec<QueryShowElement>>, Option<Vec<&str>>)> = vec![
        (None, None),
        (None, Some(vec!["ip"])),
        (Some(vec![QueryShowElement::All]), None),
        (Some(vec![QueryShowElement::All]), Some(vec!["ip", "status"])),
        (Some(vec![sym("ip"), red(QueryReducer::Count, "ip")]), Some(vec!["status"])),
        (Some(vec![sym("ip"), red(QueryReducer::Count, "*")]), None),
        (Some(vec![sym("ip"), sym("path")]), Some(vec!["status"])),
        (Some(vec![]), None),
    ];
    let schema = create_nginx_log_record_table_definition();
    for (show, grouping) in cases {
        let mut first = query(show, grouping.clone());
        first.compute_show(&schema);
        let once: Vec<String> = first.computed_show.as_ref().unwrap().elements.iter().map(label).collect();
        let mut second = query(first.computed_show.map(|s| s.elements), grouping);
        second.compute_show(&schema);
        let twice: Vec<String> = second.computed_show.as_ref().unwrap().elements.iter().map(label).collect();
        assert_eq!(once, twice);
    }
}

#[test]
fn compute_show_leaves_the_rest_of_the_query() {
    let mut q = query(Some(vec![sym("ip")]), Some(vec!["ip"]));
    q.limit = Some(riplog::parser::QueryLimit { limit: 3 });
    let schema = create_nginx_log_record_table_definition();
    q.compute_show(&schema);
    assert_eq!(q.limit.as_ref().unwrap().limit, 3);
    assert_eq!(q.show.as_ref().unwrap().elements.len(), 1);
    assert_eq!(q.grouping.as_ref().unwrap().groupings, vec![b"ip".to_vec()]);
}

#[test]
fn aggregate_means_grouping_or_a_reducer() {
    let schema = create_nginx_log_record_table_definition();
    let mut q = query(None, None);
    q.compute_show(&schema);
    assert!(!is_aggregate_query(&q));
    let mut q = query(None, Some(vec!["ip"]));
    q.compute_show(&schema);
    assert!(is_aggregate_query(&q));
    let mut q = query(Some(vec![red(QueryReducer::Count, "*")]), None);
    q.compute_show(&schema);
    assert!(is_aggregate_query(&q));
    let mut q = query(Some(vec![sym("ip")]), Some(vec!["ip"]));
    q.compute_show(&schema);
    assert!(is_aggregate_query(&q));
    let q = query(Some(vec![red(QueryReducer::Count, "*")]), None);
    assert!(!is_aggregate_query(&q));
}

#[test]
fn element_and_value_tests() {
    assert!(red(QueryReducer::Sum, "bytes").is_reducer());
    assert!(!sym("ip").is_reducer());
    assert!(QueryShowElement::All.is_star());
    assert!(!sym("ip").is_star());
    assert_eq!(sym("ip").symbol(), Some(&b"ip".to_vec()));
    assert_eq!(QueryShowElement::All.symbol(), None);
    assert_eq!(red(QueryReducer::Sum, "bytes").symbol(), None);
    assert!(QueryValue::Date(5, b"x".to_vec()).is_date());
    assert!(!QueryValue::Null.is_date());
    assert_eq!(QueryReducer::Count.to_string(), b"count");
    assert_eq!(QueryReducer::Sum.to_string(), b"sum");
    assert_eq!(QueryReducer::Max.to_string(), b"max");
    assert_eq!(QueryReducer::Avg.to_string(), b"avg");
}

#[test]
fn sort_element_reads_its_direction() {
    assert_eq!(QuerySortElement::new(b"ip".to_vec(), None).order, QuerySortOrdering::ASC);
    assert_eq!(QuerySortElement::new(b"ip".to_vec(), Some(b"desc".to_vec())).order, QuerySortOrdering::DESC);
    assert_eq!(QuerySortElement::new(b"ip".to_vec(), Some(b"DeSc".to_vec())).order, QuerySortOrdering::DESC);
    assert_eq!(QuerySortElement::new(b"ip".to_vec(), Some(b"asc".to_vec())).order, QuerySortOrdering::ASC);
    assert_eq!(QuerySortElement::new(b"ip".to_vec(), Some(b"down".to_vec())).order, QuerySortOrdering::ASC);
    assert_eq!(QuerySortOrdering::from_string(b"desc"), QuerySortOrdering::DESC);
    assert_eq!(QuerySortOrdering::from_string(b""), QuerySortOrdering::ASC);
    assert_eq!(QuerySortElement::new(b"ip".to_vec(), None).field, b"ip");
}

fn message(r: Result<(), riplog::validate::QueryValidationError>) -> Option<String> {
    r.err().map(|e| String::from_utf8(e.msg).unwrap())
}

#[test]
fn validation_accepts_known_columns() {
    let schema = create_nginx_log_record_table_definition();
    let mut q = query(
        Some(vec![sym("ip"), red(QueryReducer::Count, "*"), red(QueryReducer::Sum, "bytes"), QueryShowElement::All]),
        Some(vec!["status"]),
    );
    q.filter = Some(QueryFilter::AndFilter(
        Box::new(QueryFilter::BinaryOpFilter(
            QueryValue::Symbol(b"status".to_vec()),
            QueryValue::Int(200, b"200".to_vec()),
            QueryFilterBinaryOp::Eq,
        )),
        Box::new(QueryFilter::OrFilter(
            Box::new(QueryFilter::BinaryOpFilter(
                QueryValue::Text(b"x".to_vec()),
                QueryValue::Symbol(b"path".to_vec()),
                QueryFilterBinaryOp::Ne,
            )),
            Box::new(QueryFilter::BinaryOpFilter(QueryValue::Null, QueryValue::Boolean(true), QueryFilterBinaryOp::Lt)),
        )),
    ));
    q.sort = Some(QuerySort { sortings: vec![QuerySortElement::new(b"no_such_column".to_vec(), None)] });
    assert_eq!(message(validate_riplog_query(&q, &schema)), None);
}

#[test]
fn validation_names_the_first_unknown_column() {
    let schema = create_nginx_log_record_table_definition();
    let mut q = query(Some(vec![sym("ip"), sym("show_bad")]), Some(vec!["status", "group_bad"]));
    q.filter = Some(QueryFilter::OrFilter(
        Box::new(QueryFilter::BinaryOpFilter(
            QueryValue::Symbol(b"ip".to_vec()),
            QueryValue::Symbol(b"second_bad".to_vec()),
            QueryFilterBinaryOp::Eq,
        )),
        Box::new(QueryFilter::BinaryOpFilter(
            QueryValue::Symbol(b"third_bad".to_vec()),
            QueryValue::Null,
            QueryFilterBinaryOp::Eq,
        )),
    ));
    assert_eq!(
        message(validate_riplog_query(&q, &schema)),
        Some("Symbol 'second_bad' is not a valid column".to_string())
    );
    q.filter = None;
    assert_eq!(
        message(validate_riplog_query(&q, &schema)),
        Some("Symbol 'group_bad' is not a valid column".to_string())
    );
    q.grouping = None;
    assert_eq!(
        message(validate_riplog_query(&q, &schema)),
        Some("Symbol 'show_bad' is not a valid column".to_string())
    );
}

#[test]
fn validation_allows_star_only_under_count() {
    let schema = create_nginx_log_record_table_definition();
    let q = query(Some(vec![red(QueryReducer::Count, "*")]), None);
    assert_eq!(message(validate_riplog_query(&q, &schema)), None);
    for kind in [QueryReducer::Sum, QueryReducer::Max, QueryReducer::Avg] {
        let q = query(Some(vec![red(kind, "*")]), None);
        assert_eq!(
            message(validate_riplog_query(&q, &schema)),
            Some("Symbol '*' is not a valid column".to_string())
        );
    }
    let q = query(Some(vec![red(QueryReducer::Count, "nope")]), None);
    assert_eq!(
        message(validate_riplog_query(&q, &schema)),
        Some("Symbol 'nope' is not a valid column".to_string())
    );
    assert_eq!(message(validate_symbol(b"ip", &schema)), None);
    assert_eq!(
        message(validate_symbol(b"", &schema)),
        Some("Symbol '' is not a valid column".to_string())
    );
}

fn field_line(f: &OutputField) -> String {
    match f {
        OutputField::Symbol(s) => format!("symbol {} {}", String::from_utf8(s.symbol.clone()).unwrap(), s.size),
        OutputField::Group(g) => {
            format!("group {} {} {}", String::from_utf8(g.symbol.clone()).unwrap(), g.idx, g.size)
        }
        OutputField::Reduced(r) => format!(
            "reduced {} {} {}",
            String::from_utf8(r.name()).unwrap(),
            r.idx,
            r.size
        ),
    }
}

#[test]
fn formatter_plans_a_column_for_each_element() {
    let schema = create_nginx_log_record_table_definition();
    let mut q = query(
        Some(vec![red(QueryReducer::Sum, "bytes"), red(QueryReducer::Count, "*"), red(QueryReducer::Sum, "bytes")]),
        Some(vec!["status", "ip"]),
    );
    q.compute_show(&schema);
    let f = RecordFormatter::new(&q, &schema);
    let fields: Vec<String> = f.fields.iter().map(field_line).collect();
    assert_eq!(
        fields,
        vec![
            "group status 0 3",
            "group ip 1 15",
            "reduced sum(bytes) 0 10",
            "reduced count(*) 1 10",
            "reduced sum(bytes) 0 10"
        ]
    );
    assert!(!f.sortable());
    assert_eq!(get_group_idx(b"ip", &q), Some(1));
    assert_eq!(get_group_idx(b"path", &q), None);
    assert_eq!(get_reduce_idx(b"*", QueryReducer::Count, &q), Some(1));
    assert_eq!(get_reduce_idx(b"bytes", QueryReducer::Sum, &q), Some(0));
    assert_eq!(get_reduce_idx(b"bytes", QueryReducer::Max, &q), None);
}

#[test]
fn formatter_plans_plain_columns_with_the_width_of_the_schema() {
    let schema = create_nginx_log_record_table_definition();
    let mut q = query(Some(vec![sym("path"), sym("unknown"), sym("status")]), None);
    q.compute_show(&schema);
    let f = RecordFormatter::new(&q, &schema);
    let fields: Vec<String> = f.fields.iter().map(field_line).collect();
    assert_eq!(fields, vec!["symbol path 20", "symbol unknown 10", "symbol status 3"]);
}

#[test]
fn formatter_picks_the_sort_column_by_its_label() {
    let schema = create_nginx_log_record_table_definition();
    let mut q = query(None, Some(vec!["status"]));
    q.sort = Some(QuerySort { sortings: vec![QuerySortElement::new(b"count(*)".to_vec(), Some(b"desc".to_vec()))] });
    q.compute_show(&schema);
    let f = RecordFormatter::new(&q, &schema);
    assert!(f.sortable());
    let (field, order) = f.sort.as_ref().unwrap();
    assert_eq!(field_line(field), "reduced count(*) 0 10");
    assert_eq!(*order, QuerySortOrdering::DESC);

    q.sort = Some(QuerySort { sortings: vec![QuerySortElement::new(b"status".to_vec(), None)] });
    let f = RecordFormatter::new(&q, &schema);
    let (field, order) = f.sort.as_ref().unwrap();
    assert_eq!(field_line(field), "group status 0 3");
    assert_eq!(*order, QuerySortOrdering::ASC);

    q.sort = Some(QuerySort { sortings: vec![QuerySortElement::new(b"bytes".to_vec(), None)] });
    assert!(!RecordFormatter::new(&q, &schema).sortable());
    q.sort = Some(QuerySort { sortings: vec![] });
    assert!(!RecordFormatter::new(&q, &schema).sortable());

    // A column of the record cannot order groups.
    let mut q = query(Some(vec![sym("path")]), None);
    q.sort = Some(QuerySort { sortings: vec![QuerySortElement::new(b"path".to_vec(), None)] });
    q.compute_show(&schema);
    assert!(!RecordFormatter::new(&q, &schema).sortable());
}
