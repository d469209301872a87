use riplog::run::classify_log_file;
use riplog::run::LogFileKind;
use riplog::text::ascii_bytes;
use riplog::text::bytes_contain;
use riplog::text::bytes_eq;
use riplog::text::bytes_less;
use riplog::text::copy_bytes;
use riplog::text::copy_range;
use riplog::text::find_from;
use riplog::text::has_text;
use riplog::text::index_of;
use riplog::text::lower_range;
use riplog::text::parse_u64;
use riplog::text::render_u64;
use riplog::text::word_is;

#[test]
fn index_of_finds_the_first_occurrence() {
    assert_eq!(index_of(b"a b c", b' '), Some(1));
    assert_eq!(index_of(b" a", b' '), Some(0));
    assert_eq!(index_of(b"abc", b' '), None);
    assert_eq!(index_of(b"", b' '), None);
    assert_eq!(find_from(b"a b c", b' ', 2), 3);
    assert_eq!(find_from(b"a b c", b' ', 4), 5);
    assert_eq!(find_from(b"a b c", b' ', 5), 5);
}

#[test]
fn copies_are_equal() {
    assert_eq!(copy_range(b"abcdef", 2, 4), b"cd");
    assert_eq!(copy_range(b"abcdef", 3, 3), b"");
    assert_eq!(copy_bytes(b"abc"), b"abc");
    assert_eq!(ascii_bytes("null"), b"null");
    assert!(bytes_eq(b"abc", b"abc"));
    assert!(!bytes_eq(b"abc", b"abd"));
    assert!(!bytes_eq(b"abc", b"ab"));
    assert!(bytes_eq(b"", b""));
}

#[test]
fn decimal_numbers_are_read() {
    assert_eq!(parse_u64(b"0"), Some(0));
    assert_eq!(parse_u64(b"42"), Some(42));
    assert_eq!(parse_u64(b"007"), Some(7));
    assert_eq!(parse_u64(b"+5"), Some(5));
    assert_eq!(parse_u64(b"18446744073709551615"), Some(u64::MAX));
    assert_eq!(parse_u64(b"18446744073709551616"), None);
    assert_eq!(parse_u64(b"99999999999999999999999"), None);
    assert_eq!(parse_u64(b""), None);
    assert_eq!(parse_u64(b"+"), None);
    assert_eq!(parse_u64(b"-1"), None);
    assert_eq!(parse_u64(b"++1"), None);
    assert_eq!(parse_u64(b"1 "), None);
    assert_eq!(parse_u64(b"12a"), None);
    assert_eq!(parse_u64(b"1.5"), None);
}

#[test]
fn decimal_numbers_are_written() {
    assert_eq!(render_u64(0), b"0");
    assert_eq!(render_u64(7), b"7");
    assert_eq!(render_u64(10), b"10");
    assert_eq!(render_u64(1234567890), b"1234567890");
    assert_eq!(render_u64(u64::MAX), b"18446744073709551615");
    for n in [0u64, 1, 9, 10, 99, 100, 12345, u64::MAX] {
        assert_eq!(parse_u64(&render_u64(n)), Some(n));
    }
}

#[test]
fn lexicographic_order() {
    assert!(bytes_less(b"", b"a"));
    assert!(!bytes_less(b"", b""));
    assert!(!bytes_less(b"a", b""));
    assert!(bytes_less(b"a", b"b"));
    assert!(!bytes_less(b"b", b"a"));
    assert!(bytes_less(b"ab", b"abc"));
    assert!(!bytes_less(b"abc", b"ab"));
    assert!(!bytes_less(b"abc", b"abc"));
    assert!(bytes_less(b"10", b"9"));
    assert!(bytes_less(b"abc", b"b"));
    assert!(bytes_less(b"Z", b"a"));
    assert!(bytes_less(b"a", b"\xff"));
}

#[test]
fn substring_search() {
    assert!(bytes_contain(b"hello world", b"lo w"));
    assert!(bytes_contain(b"hello", b"hello"));
    assert!(bytes_contain(b"hello", b"o"));
    assert!(bytes_contain(b"hello", b"h"));
    assert!(bytes_contain(b"hello", b""));
    assert!(bytes_contain(b"", b""));
    assert!(!bytes_contain(b"", b"a"));
    assert!(!bytes_contain(b"hello", b"hello!"));
    assert!(!bytes_contain(b"hello", b"lol"));
    assert!(bytes_contain(b"aaab", b"aab"));
}

#[test]
fn missing_text() {
    assert!(!has_text(b""));
    assert!(!has_text(b"-"));
    assert!(!has_text(b"\"-\""));
    assert!(has_text(b"--"));
    assert!(has_text(b"\"\""));
    assert!(has_text(b" "));
    assert!(has_text(b"-a-"));
}

#[test]
fn lower_case() {
    assert_eq!(lower_range(b"AbC_09zZ", 0, 8), b"abc_09zz");
    assert_eq!(lower_range(b"AbC", 1, 2), b"b");
    assert_eq!(lower_range(b"@[`{", 0, 4), b"@[`{");
    assert!(word_is(b"xx GROUP yy", 3, 8, "group"));
    assert!(word_is(b"group", 0, 5, "group"));
    assert!(!word_is(b"groups", 0, 6, "group"));
    assert!(!word_is(b"grou", 0, 4, "group"));
}

#[test]
fn files_are_read_by_their_name() {
    assert_eq!(classify_log_file(b"access.log"), LogFileKind::Plain);
    assert_eq!(classify_log_file(b"site.access.log.1"), LogFileKind::Plain);
    assert_eq!(classify_log_file(b"access.log.2.gz"), LogFileKind::Gzip);
    assert_eq!(classify_log_file(b"anything.gz"), LogFileKind::Gzip);
    assert_eq!(classify_log_file(b".gz"), LogFileKind::Gzip);
    assert_eq!(classify_log_file(b"error.log.gz"), LogFileKind::Ignored);
    assert_eq!(classify_log_file(b"error.log"), LogFileKind::Ignored);
    assert_eq!(classify_log_file(b"access.log.error.gz"), LogFileKind::Plain);
    assert_eq!(classify_log_file(b"access.gz.log"), LogFileKind::Ignored);
    assert_eq!(classify_log_file(b"gz"), LogFileKind::Ignored);
    assert_eq!(classify_log_file(b""), LogFileKind::Ignored);
    assert_eq!(classify_log_file(b"README"), LogFileKind::Ignored);
}
