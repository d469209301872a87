use riplog::grammar::parse_query;
use riplog::grammar::QueryParseError;
use riplog::nginx::create_nginx_log_record_table_definition;
use riplog::nginx::read_log_record_binary;
use riplog::nginx::BinaryNginxLogRecord;
use riplog::query::keys_equal;
use riplog::query::QueryEvaluator;
use riplog::run::run_parsed;
use riplog::run::run_query;
use riplog::run::LineOutcome;
use riplog::run::QueryError;
use riplog::run::QueryOutput;

fn line(ip: &str, request: &str, status: &str, bytes: &str, referrer: &str) -> Vec<u8> {
    format!(
        "{} - - [10/Oct/2020:13:55:36 +0000] \"{}\" {} {} \"{}\" \"UA\"\n",
        ip, request, status, bytes, referrer
    )
    .into_bytes()
}

fn sample() -> Vec<Vec<u8>> {
    vec![
        line("10.0.0.1", "GET /a HTTP/1.1", "200", "10", "-"),
        line("10.0.0.2", "GET /b HTTP/1.1", "404", "20", "http://x/"),
        b"this line is not a log line\n".to_vec(),
        line("10.0.0.1", "POST /a HTTP/1.1", "200", "30", "-"),
        line("10.0.0.3", "GET /c HTTP/1.1", "500", "-", "http://y/"),
        line("10.0.0.2", "GET /a HTTP/1.1", "200", "5", "-"),
        b"\n".to_vec(),
    ]
}

fn run(query: &str, lines: &Vec<Vec<u8>>) -> QueryOutput {
    match run_query(query.as_bytes(), lines) {
        Ok(out) => out,
        Err(e) => panic!("query refused: {:?}", e),
    }
}

fn text(out: &QueryOutput) -> Vec<String> {
    out.lines.iter().map(|l| String::from_utf8(l.clone()).unwrap()).collect()
}

fn cells(row: &str) -> Vec<String> {
    let parts: Vec<&str> = row.split('|').collect();
    parts[1..parts.len() - 1].iter().map(|c| c.trim().to_string()).collect()
}

fn data(out: &QueryOutput) -> Vec<Vec<String>> {
    let rows = text(out);
    rows[3..rows.len() - 1].iter().map(|r| cells(r)).collect()
}

fn evaluator(query: &str) -> (QueryEvaluator, Vec<Vec<u8>>) {
    let schema = create_nginx_log_record_table_definition();
    let q = parse_query(query.as_bytes()).ok().unwrap();
    QueryEvaluator::new(q, schema)
}

#[test]
fn table_of_a_plain_query_is_exact() {
    let out = run("show ip, status, bytes", &sample());
    assert_eq!(
        text(&out),
        vec![
            "+---------------------------------------+",
            "| ip              | status | bytes      |",
            "|---------------------------------------|",
            "| 10.0.0.1        | 200    | 10         |",
            "| 10.0.0.2        | 404    | 20         |",
            "| 10.0.0.1        | 200    | 30         |",
            "| 10.0.0.3        | 500    | null       |",
            "| 10.0.0.2        | 200    | 5          |",
            "+---------------------------------------+",
        ]
    );
    assert_eq!(out.malformed, 2);
}

#[test]
fn table_of_a_grouped_query_is_exact() {
    let out = run("group status | show count(*), sum(bytes) | sort status", &sample());
    assert_eq!(
        text(&out),
        vec![
            "+----------------------------------+",
            "| status | count(*)   | sum(bytes) |",
            "|----------------------------------|",
            "| 200    | 3          | 45         |",
            "| 404    | 1          | 20         |",
            "| 500    | 1          | 0          |",
            "+----------------------------------+",
        ]
    );
    assert_eq!(out.malformed, 2);
}

#[test]
fn no_lines_give_header_and_closing_line_only() {
    let out = run("show ip", &Vec::new());
    assert_eq!(text(&out), vec!["+-----------------+", "| ip              |", "|-----------------|", "+-----------------+"]);
    let out = run("", &Vec::new());
    assert_eq!(out.lines.len(), 4);
    let out = run("group ip", &Vec::new());
    assert_eq!(
        text(&out),
        vec![
            "+------------------------------+",
            "| ip              | count(*)   |",
            "|------------------------------|",
            "+------------------------------+"
        ]
    );
    // Without grouping the one row of the reducers is always there.
    let out = run("show count(*), max(bytes)", &Vec::new());
    assert_eq!(data(&out), vec![vec!["0", "0"]]);
}

#[test]
fn dash_referrer_is_missing_and_matches_null() {
    let out = run("referrer = null | show ip, referrer", &sample());
    assert_eq!(
        data(&out),
        vec![vec!["10.0.0.1", "null"], vec!["10.0.0.1", "null"], vec!["10.0.0.2", "null"]]
    );
    let out = run("referrer != null | show path, referrer", &sample());
    assert_eq!(data(&out), vec![vec!["/b", "http://x/"], vec!["/c", "http://y/"]]);
    let quoted = vec![line("1.1.1.1", "GET / HTTP/1.1", "200", "1", "\"-\"")];
    assert_eq!(data(&run("referrer = null | show ip", &quoted)), Vec::<Vec<String>>::new());
}

#[test]
fn missing_values_group_together_under_null() {
    let out = run("group referrer | sort referrer", &sample());
    assert_eq!(
        data(&out),
        vec![vec!["http://x/", "1"], vec!["http://y/", "1"], vec!["null", "3"]]
    );
    let out = run("group bytes, referrer | show count(*) | sort count(*) desc | limit 1", &sample());
    assert_eq!(data(&out).len(), 1);
}

#[test]
fn limit_lets_through_the_first_rows_only() {
    for (limit, expect) in [(0usize, 0usize), (1, 1), (3, 3), (5, 5), (6, 5), (100, 5)] {
        let out = run(&format!("limit {}", limit), &sample());
        assert_eq!(out.lines.len(), 3 + expect + 1, "limit {}", limit);
    }
    let out = run("status = 200 | show ip, bytes | limit 2", &sample());
    assert_eq!(data(&out), vec![vec!["10.0.0.1", "10"], vec!["10.0.0.1", "30"]]);
    // Lines after the last row are not looked at, so they are not counted either.
    assert_eq!(out.malformed, 1);
    let out = run("status = 404 | show ip | limit 2", &sample());
    assert_eq!(data(&out), vec![vec!["10.0.0.2"]]);
    assert_eq!(out.malformed, 2);
}

#[test]
fn groups_come_in_the_order_of_the_sort() {
    let out = run("group ip | show count(*), max(bytes) | sort max(bytes) desc", &sample());
    assert_eq!(
        data(&out),
        vec![vec!["10.0.0.1", "2", "30"], vec!["10.0.0.2", "2", "20"], vec!["10.0.0.3", "1", "0"]]
    );
    let out = run("group ip | show count(*), max(bytes) | sort max(bytes) asc | limit 2", &sample());
    assert_eq!(data(&out), vec![vec!["10.0.0.3", "1", "0"], vec!["10.0.0.2", "2", "20"]]);
    let out = run("group ip | sort ip desc", &sample());
    assert_eq!(data(&out), vec![vec!["10.0.0.3", "1"], vec!["10.0.0.2", "2"], vec!["10.0.0.1", "2"]]);
    // Without a sort, and with one by something that is not shown, first seen comes first.
    let out = run("group method, status", &sample());
    assert_eq!(
        data(&out),
        vec![
            vec!["GET", "200", "2"],
            vec!["GET", "404", "1"],
            vec!["POST", "200", "1"],
            vec!["GET", "500", "1"]
        ]
    );
    let out = run("group status | sort bytes desc | limit 2", &sample());
    assert_eq!(data(&out), vec![vec!["200", "3"], vec!["404", "1"]]);
    let out = run("group status | limit 0", &sample());
    assert_eq!(data(&out), Vec::<Vec<String>>::new());
}

#[test]
fn aggregate_over_the_whole_stream() {
    let out = run("status = 200 | show count(*), count(referrer), sum(bytes), avg(bytes), max(bytes)", &sample());
    assert_eq!(data(&out), vec![vec!["3", "0", "45", "15", "30"]]);
    let out = run("show count(bytes), sum(bytes) | limit 0", &sample());
    assert_eq!(data(&out), vec![vec!["5", "65"]]);
}

#[test]
fn symbols_only_show_with_grouping_is_shown_as_written() {
    let out = run("group ip, status | show status | sort status", &sample());
    assert_eq!(data(&out), vec![vec!["200"], vec!["200"], vec!["404"], vec!["500"]]);
    let out = run("group ip | show path, ip | limit 1", &sample());
    assert_eq!(data(&out), vec![vec!["null", "10.0.0.1"]]);
}

#[test]
fn wide_values_widen_the_rows_that_follow() {
    let lines = vec![
        line("1.1.1.1", "GET /short HTTP/1.1", "200", "1", "-"),
        line("1.1.1.1", &format!("GET /{} HTTP/1.1", "p".repeat(30)), "200", "1", "-"),
        line("1.1.1.1", &format!("GET /{} HTTP/1.1", "q".repeat(199)), "200", "1", "-"),
        line("1.1.1.1", "GET /short HTTP/1.1", "200", "1", "-"),
    ];
    let rows = text(&run("show path", &lines));
    let widths: Vec<usize> = rows.iter().map(|r| r.len()).collect();
    assert_eq!(widths, vec![24, 24, 24, 24, 35, 54, 54, 54]);
    assert_eq!(rows[5], format!("| /{} |", "q".repeat(49)));
}

#[test]
fn refused_queries() {
    match run_query(b"status = ", &sample()) {
        Err(QueryError::Parse(QueryParseError::Syntax)) => {}
        other => panic!("{:?}", other),
    }
    match run_query(b"path ~ r\"(\"", &sample()) {
        Err(QueryError::Parse(QueryParseError::BadRegex)) => {}
        other => panic!("{:?}", other),
    }
    match run_query(b"stat = 200 | group nope", &sample()) {
        Err(QueryError::Validation(e)) => assert_eq!(e.msg, b"Symbol 'stat' is not a valid column"),
        other => panic!("{:?}", other),
    }
    match run_query(b"show sum(*)", &sample()) {
        Err(QueryError::Validation(e)) => assert_eq!(e.msg, b"Symbol '*' is not a valid column"),
        other => panic!("{:?}", other),
    }
    assert!(run_query(b"group ip | sort nope", &sample()).is_ok());
}

#[test]
fn evaluator_step_by_step() {
    let (mut ev, header) = evaluator("status = 200 | show ip | limit 2");
    assert_eq!(header.len(), 3);
    assert!(!ev.aggregate);
    assert!(!ev.should_stop());
    let mut record = BinaryNginxLogRecord::empty();
    let lines = sample();
    assert!(read_log_record_binary(&lines[0], lines[0].len(), &mut record));
    assert_eq!(ev.evaluate(&mut record), Some(b"| 10.0.0.1        |".to_vec()));
    assert_eq!(ev.printed_count, 1);
    assert!(read_log_record_binary(&lines[1], lines[1].len(), &mut record));
    assert!(!ev.apply_filters(&mut record));
    assert_eq!(ev.evaluate(&mut record), None);
    assert_eq!(ev.printed_count, 1);
    assert!(!ev.should_stop());
    match ev.feed(&mut record, &lines[2], lines[2].len()) {
        LineOutcome::Malformed => {}
        other => panic!("{:?}", other),
    }
    match ev.feed(&mut record, &lines[3], lines[3].len()) {
        LineOutcome::Taken(Some(row)) => assert_eq!(row, b"| 10.0.0.1        |"),
        other => panic!("{:?}", other),
    }
    assert!(ev.should_stop());
    match ev.feed(&mut record, &lines[5], lines[5].len()) {
        LineOutcome::Stopped => {}
        other => panic!("{:?}", other),
    }
    assert_eq!(ev.finalize(), vec![b"+-----------------+".to_vec()]);
}

#[test]
fn aggregate_never_stops_early() {
    let (mut ev, header) = evaluator("group ip | limit 0");
    assert!(header.is_empty());
    assert!(ev.aggregate);
    assert!(!ev.should_stop());
    let mut record = BinaryNginxLogRecord::empty();
    for l in sample().iter() {
        match ev.feed(&mut record, l, l.len()) {
            LineOutcome::Stopped | LineOutcome::Taken(Some(_)) => panic!("stopped or gave a row"),
            _ => {}
        }
    }
    assert!(!ev.should_stop());
    assert_eq!(ev.group_map.len(), 3);
    assert_eq!(ev.group_map[0].key, vec![b"10.0.0.1".to_vec()]);
    assert_eq!(ev.group_map[0].reducer.result_at(0), Some(2));
    assert_eq!(ev.finalize().len(), 4);
}

#[test]
fn run_of_a_query_that_was_read_before() {
    let schema = create_nginx_log_record_table_definition();
    let q = parse_query(b"show method | limit 1").ok().unwrap();
    let out = run_parsed(q, schema, &sample());
    assert_eq!(data(&out), vec![vec!["GET"]]);
}

#[test]
fn group_keys_are_compared_part_by_part() {
    let a = vec![b"x".to_vec(), b"y".to_vec()];
    assert!(keys_equal(&a, &vec![b"x".to_vec(), b"y".to_vec()]));
    assert!(!keys_equal(&a, &vec![b"x".to_vec(), b"z".to_vec()]));
    assert!(!keys_equal(&a, &vec![b"x".to_vec()]));
    assert!(!keys_equal(&a, &vec![b"xy".to_vec(), b"".to_vec()]));
    assert!(keys_equal(&Vec::new(), &Vec::new()));
}

#[test]
fn dates_are_shown_in_the_local_zone_and_filtered_as_instants() {
    let lines = vec![
        b"1.1.1.1 - - [10/Oct/2020:13:55:36 +0200] \"GET / HTTP/1.1\" 200 1 \"-\" \"UA\"\n".to_vec(),
        b"2.2.2.2 - - [10/Oct/2020:12:00:00 +0000] \"GET / HTTP/1.1\" 200 1 \"-\" \"UA\"\n".to_vec(),
        b"3.3.3.3 - - [not a date] \"GET / HTTP/1.1\" 200 1 \"-\" \"UA\"\n".to_vec(),
    ];
    let local = |s: &str| {
        chrono::DateTime::parse_from_str(s, "%d/%b/%Y:%H:%M:%S %z")
            .unwrap()
            .with_timezone(&chrono::Local)
            .to_string()
    };
    let out = run("show ip, date", &lines);
    assert_eq!(
        data(&out),
        vec![
            vec!["1.1.1.1".to_string(), local("10/Oct/2020:13:55:36 +0200")],
            vec!["2.2.2.2".to_string(), local("10/Oct/2020:12:00:00 +0000")],
            vec!["3.3.3.3".to_string(), "null".to_string()],
        ]
    );
    let out = run("date < d\"10-10-2020 11:56:00 +0000\" | show ip", &lines);
    assert_eq!(data(&out), vec![vec!["1.1.1.1"]]);
    let out = run("date > d\"10-10-2020 13:00:00 +0200\" | show ip", &lines);
    assert_eq!(data(&out), vec![vec!["1.1.1.1"], vec!["2.2.2.2"]]);
    let out = run("date = null | show ip", &lines);
    assert_eq!(data(&out), Vec::<Vec<String>>::new());
}
