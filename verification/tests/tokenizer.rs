use riplog::nginx::create_nginx_log_record_table_definition;
use riplog::nginx::empty_opt;
use riplog::nginx::is_empty;
use riplog::nginx::parse_log_record;
use riplog::nginx::read_log_record_binary;
use riplog::nginx::BinaryNginxLogRecord;
use riplog::table::ColumnDefinition;
use riplog::table::ColumnKind;
use riplog::table::Field;

fn tokenize(line: &str) -> Option<BinaryNginxLogRecord> {
    let buf = line.as_bytes().to_vec();
    let mut record = BinaryNginxLogRecord::empty();
    if read_log_record_binary(&buf, buf.len(), &mut record) {
        Some(record)
    } else {
        None
    }
}

const LINE: &str = "203.0.113.9 - alice [10/Oct/2020:13:55:36 +0200] \"GET /a/b?x=1&y=2 HTTP/1.1\" 200 42 \"http://ref/\" \"Mozilla/5.0 (X11)\"\n";

#[test]
fn tokenizer_fills_the_nine_columns() {
    let r = tokenize(LINE).unwrap();
    assert_eq!(r.ip, b"203.0.113.9");
    assert_eq!(r.date, b"10/Oct/2020:13:55:36 +0200");
    assert_eq!(r.method, b"GET");
    assert_eq!(r.path, b"/a/b");
    assert_eq!(r.query, b"?x=1&y=2");
    assert_eq!(r.status, b"200");
    assert_eq!(r.bytes, b"42");
    assert_eq!(r.referrer, b"http://ref/");
    assert_eq!(r.user_agent, b"Mozilla/5.0 (X11)");
}

#[test]
fn tokenizer_takes_a_line_without_newline() {
    let r = tokenize("1.1.1.1 - - [10/Oct/2020:13:55:36 +0000] \"GET /u HTTP/1.1\" 200 42 \"-\" \"UA\"").unwrap();
    assert_eq!(r.ip, b"1.1.1.1");
    assert_eq!(r.path, b"/u");
    assert_eq!(r.query, b"");
    assert_eq!(r.referrer, b"-");
    assert_eq!(r.user_agent, b"UA");
}

#[test]
fn tokenizer_pieces_put_together_give_the_line() {
    let r = tokenize(LINE).unwrap();
    let mut again: Vec<u8> = Vec::new();
    again.extend_from_slice(&r.ip);
    again.extend_from_slice(b" - alice [");
    again.extend_from_slice(&r.date);
    again.extend_from_slice(b"] \"");
    again.extend_from_slice(&r.method);
    again.extend_from_slice(b" ");
    again.extend_from_slice(&r.path);
    again.extend_from_slice(&r.query);
    again.extend_from_slice(b" HTTP/1.1\" ");
    again.extend_from_slice(&r.status);
    again.extend_from_slice(b" ");
    again.extend_from_slice(&r.bytes);
    again.extend_from_slice(b" \"");
    again.extend_from_slice(&r.referrer);
    again.extend_from_slice(b"\" \"");
    again.extend_from_slice(&r.user_agent);
    again.extend_from_slice(b"\"\n");
    assert_eq!(again, LINE.as_bytes());
}

#[test]
fn tokenizer_request_without_space_is_all_path() {
    let r = tokenize("1.1.1.1 - - [d] \"/only?x\" 400 0 \"-\" \"-\"").unwrap();
    assert_eq!(r.method, b"");
    assert_eq!(r.path, b"/only?x");
    assert_eq!(r.query, b"");
}

#[test]
fn tokenizer_request_without_protocol() {
    let r = tokenize("1.1.1.1 - - [d] \"GET /p?q=1\" 200 0 \"-\" \"-\"").unwrap();
    assert_eq!(r.method, b"GET");
    assert_eq!(r.path, b"/p");
    assert_eq!(r.query, b"?q=1");
}

#[test]
fn tokenizer_question_mark_after_the_target_is_no_query() {
    let r = tokenize("1.1.1.1 - - [d] \"GET /p HTTP/1.1?x\" 200 0 \"-\" \"-\"").unwrap();
    assert_eq!(r.path, b"/p");
    assert_eq!(r.query, b"");
}

#[test]
fn tokenizer_user_agent_may_hold_quotes_and_be_empty() {
    let r = tokenize("1.1.1.1 - - [d] \"GET / HTTP/1.1\" 200 0 \"r\" \"a \"b\" c\"\n").unwrap();
    assert_eq!(r.user_agent, b"a \"b\" c");
    let r = tokenize("1.1.1.1 - - [d] \"GET / HTTP/1.1\" 200 0 \"\" \"\"").unwrap();
    assert_eq!(r.referrer, b"");
    assert_eq!(r.user_agent, b"");
}

#[test]
fn tokenizer_uses_only_the_given_length() {
    let full = b"1.1.1.1 - - [d] \"GET / HTTP/1.1\" 200 0 \"r\" \"UA\"trailing garbage".to_vec();
    let len = full.len() - "trailing garbage".len();
    let mut record = BinaryNginxLogRecord::empty();
    assert!(read_log_record_binary(&full, len, &mut record));
    assert_eq!(record.user_agent, b"UA");
    assert!(!read_log_record_binary(&full, full.len(), &mut record));
}

#[test]
fn tokenizer_skips_malformed_lines_and_keeps_the_record() {
    let mut record = tokenize(LINE).unwrap();
    let bad = [
        "",
        "\n",
        "garbage",
        "1.1.1.1 - -",
        "1.1.1.1 - - 10/Oct/2020:13:55:36 +0000] \"GET / HTTP/1.1\" 200 42 \"-\" \"UA\"",
        "1.1.1.1 - - [10/Oct/2020:13:55:36 +0000 \"GET / HTTP/1.1\" 200 42 \"-\" \"UA\"",
        "1.1.1.1 - - [10/Oct/2020:13:55:36 +0000] GET / HTTP/1.1\" 200 42 \"-\" \"UA\"",
        "1.1.1.1 - - [10/Oct/2020:13:55:36 +0000] \"GET / HTTP/1.1 200 42",
        "1.1.1.1 - - [10/Oct/2020:13:55:36 +0000] \"GET / HTTP/1.1\" 200 42",
        "1.1.1.1 - - [10/Oct/2020:13:55:36 +0000] \"GET / HTTP/1.1\" 200 42 - \"UA\"",
        "1.1.1.1 - - [10/Oct/2020:13:55:36 +0000] \"GET / HTTP/1.1\" 200 42 \"-\" UA",
        "1.1.1.1 - - [10/Oct/2020:13:55:36 +0000] \"GET / HTTP/1.1\" 200 42 \"-\" \"UA",
        "1.1.1.1 - - [10/Oct/2020:13:55:36 +0000] \"GET / HTTP/1.1\" 200 42 \"-\" \"",
        "1.1.1.1 - - [10/Oct/2020:13:55:36 +0000] \"GET / HTTP/1.1\" 200 42 \"-\"",
    ];
    for line in bad.iter() {
        let buf = line.as_bytes().to_vec();
        assert!(!read_log_record_binary(&buf, buf.len(), &mut record), "{}", line);
        assert_eq!(record.ip, b"203.0.113.9");
        assert_eq!(record.user_agent, b"Mozilla/5.0 (X11)");
    }
}

#[test]
fn tokenizer_clears_what_was_decoded() {
    let mut record = tokenize(LINE).unwrap();
    assert_eq!(record.parsed_status(), Some(200));
    assert_eq!(record.parsed_record.status, Some(Some(200)));
    let next = b"1.1.1.1 - - [d] \"GET / HTTP/1.1\" 404 0 \"-\" \"-\"".to_vec();
    assert!(read_log_record_binary(&next, next.len(), &mut record));
    assert_eq!(record.parsed_record.status, None);
    assert_eq!(record.parsed_record.ip, None);
    assert_eq!(record.parsed_status(), Some(404));
}

#[test]
fn accessors_decode_each_column() {
    let mut r = tokenize(LINE).unwrap();
    assert_eq!(r.parsed_ip(), b"203.0.113.9");
    assert_eq!(r.parsed_path(), b"/a/b");
    assert_eq!(r.parsed_method(), Some(b"GET".to_vec()));
    assert_eq!(r.parsed_query(), Some(b"?x=1&y=2".to_vec()));
    assert_eq!(r.parsed_status(), Some(200));
    assert_eq!(r.parsed_bytes(), Some(42));
    assert_eq!(r.parsed_referrer(), Some(b"http://ref/".to_vec()));
    assert_eq!(r.parsed_user_agent(), Some(b"Mozilla/5.0 (X11)".to_vec()));
    let date = r.parsed_date().unwrap();
    assert_eq!(date.seconds, 1602330936);
}

#[test]
fn accessors_give_none_for_missing_and_undecodable_values() {
    let mut r = tokenize("1.1.1.1 - - [not a date] \"/x\" - abc \"-\" \"\"").unwrap();
    assert_eq!(r.parsed_method(), None);
    assert_eq!(r.parsed_query(), None);
    assert_eq!(r.parsed_status(), None);
    assert_eq!(r.parsed_bytes(), None);
    assert_eq!(r.parsed_referrer(), None);
    assert_eq!(r.parsed_user_agent(), None);
    assert_eq!(r.parsed_date(), None);
}

#[test]
fn accessor_called_twice_gives_the_same_and_decodes_once() {
    let mut r = tokenize(LINE).unwrap();
    assert_eq!(r.parsed_record.bytes, None);
    let first = r.parsed_bytes();
    assert_eq!(r.parsed_record.bytes, Some(Some(42)));
    // A second call answers from the slot: it does not look at the column again.
    r.bytes = b"77".to_vec();
    let second = r.parsed_bytes();
    assert_eq!(first, second);
    let first = r.parsed_referrer();
    r.referrer = b"changed".to_vec();
    assert_eq!(r.parsed_referrer(), first);
    let first = r.parsed_date();
    r.date = b"changed".to_vec();
    assert_eq!(r.parsed_date(), first);
}

#[test]
fn dash_and_empty_helpers() {
    assert!(is_empty(b"-"));
    assert!(is_empty(b"\"-\""));
    assert!(!is_empty(b""));
    assert!(!is_empty(b"--"));
    assert!(!is_empty(b"a"));
    let none: Vec<u8> = Vec::new();
    assert_eq!(empty_opt(&none), None);
    let some = b"x".to_vec();
    assert_eq!(empty_opt(&some), Some(&some));
}

#[test]
fn schema_lists_the_columns_in_order() {
    let schema = create_nginx_log_record_table_definition();
    let names: Vec<String> =
        schema.columns.iter().map(|c| String::from_utf8(c.name().clone()).unwrap()).collect();
    assert_eq!(
        names,
        vec!["ip", "date", "method", "path", "query", "status", "bytes", "referrer", "user_agent"]
    );
    let sizes: Vec<usize> = schema.columns.iter().map(|c| c.get_size()).collect();
    assert_eq!(sizes, vec![15, 26, 5, 20, 50, 3, 10, 50, 50]);
    let kinds: Vec<ColumnKind> = schema.columns.iter().map(|c| c.kind()).collect();
    assert_eq!(
        kinds,
        vec![
            ColumnKind::Text,
            ColumnKind::Date,
            ColumnKind::Text,
            ColumnKind::Text,
            ColumnKind::Text,
            ColumnKind::Integer,
            ColumnKind::Integer,
            ColumnKind::Text,
            ColumnKind::Text
        ]
    );
    assert_eq!(schema.find(b"status"), Some(5));
    assert_eq!(schema.find(b"nope"), None);
    assert!(schema.contains_key(b"user_agent"));
    assert!(!schema.contains_key(b"User_Agent"));
}

#[test]
fn every_present_column_gives_its_raw_bytes() {
    let record = tokenize(LINE).unwrap();
    let schema = create_nginx_log_record_table_definition();
    let raw: Vec<&Vec<u8>> = vec![
        &record.ip,
        &record.date,
        &record.method,
        &record.path,
        &record.query,
        &record.status,
        &record.bytes,
        &record.referrer,
        &record.user_agent,
    ];
    for (i, column) in schema.columns.iter().enumerate() {
        let found = schema.get(column.name()).unwrap();
        assert_eq!(found.extract_binary(&record), Some(raw[i]));
    }
}

#[test]
fn missing_columns_give_no_bytes() {
    let record = tokenize("- - - [] \"/x\" - \"-\" \"-\" \"\"").unwrap();
    let schema = create_nginx_log_record_table_definition();
    assert_eq!(schema.get(b"ip").unwrap().extract_binary(&record), None);
    assert_eq!(schema.get(b"date").unwrap().extract_binary(&record), None);
    assert_eq!(schema.get(b"method").unwrap().extract_binary(&record), None);
    assert_eq!(schema.get(b"query").unwrap().extract_binary(&record), None);
    assert_eq!(schema.get(b"referrer").unwrap().extract_binary(&record), None);
    assert_eq!(schema.get(b"user_agent").unwrap().extract_binary(&record), None);
    // A dash is a value for a column that is no text.
    assert_eq!(schema.get(b"status").unwrap().extract_binary(&record), Some(&b"-".to_vec()));
    assert_eq!(schema.get(b"bytes").unwrap().extract_binary(&record), Some(&b"\"-\"".to_vec()));
}

#[test]
fn column_of_another_kind_shows_its_bytes() {
    let mut record = tokenize(LINE).unwrap();
    let flag = ColumnDefinition::Boolean { name: b"ok".to_vec(), size: 4, source: Field::Status };
    assert_eq!(riplog::table::get_column_value_as_string(&flag, &mut record), Some(b"200".to_vec()));
    assert_eq!(riplog::table::get_column_value_as_integer(&flag, &mut record), None);
    let date = ColumnDefinition::Date { name: b"when".to_vec(), size: 4, source: Field::Status };
    assert_eq!(riplog::table::get_column_value_as_date(&date, &mut record), None);
}

#[test]
fn whole_line_decoded_at_once() {
    let r = parse_log_record(LINE.as_bytes()).unwrap();
    assert_eq!(r.ip, b"203.0.113.9");
    assert_eq!(r.date.unwrap().seconds, 1602330936);
    assert_eq!(r.method, Some(b"GET".to_vec()));
    assert_eq!(r.path, b"/a/b");
    assert_eq!(r.query, Some(b"?x=1&y=2".to_vec()));
    assert_eq!(r.status, Some(200));
    assert_eq!(r.bytes, Some(42));
    assert_eq!(r.referrer, Some(b"http://ref/".to_vec()));
    assert_eq!(r.user_agent, Some(b"Mozilla/5.0 (X11)".to_vec()));
    let r = parse_log_record(b"1.1.1.1 - - [x] \"/p\" - - \"-\" \"-\"").unwrap();
    assert_eq!(r.date, None);
    assert_eq!(r.method, None);
    assert_eq!(r.path, b"/p");
    assert_eq!(r.query, None);
    assert_eq!(r.status, None);
    assert_eq!(r.bytes, None);
    assert_eq!(r.referrer, None);
    assert_eq!(r.user_agent, None);
    assert!(parse_log_record(b"not a line").is_none());
}
