use rojo::numbers::{parse_cursor, parse_id, read_digit, read_number};

#[test]
fn cursors_are_decimal() {
    assert_eq!(parse_cursor("0"), Some(0));
    assert_eq!(parse_cursor("42"), Some(42));
    assert_eq!(parse_cursor("007"), Some(7));
    assert_eq!(parse_cursor("4294967295"), Some(4294967295));
}

#[test]
fn malformed_cursors_are_refused() {
    assert_eq!(parse_cursor(""), None);
    assert_eq!(parse_cursor("4294967296"), None);
    assert_eq!(parse_cursor("99999999999999999999999999999999999999999999"), None);
    assert_eq!(parse_cursor("-1"), None);
    assert_eq!(parse_cursor("+1"), None);
    assert_eq!(parse_cursor("1a"), None);
    assert_eq!(parse_cursor("ff"), None);
    assert_eq!(parse_cursor(" 1"), None);
}

#[test]
fn ids_are_hexadecimal() {
    assert_eq!(parse_id("0"), Some(0));
    assert_eq!(parse_id("ff"), Some(255));
    assert_eq!(parse_id("FF"), Some(255));
    assert_eq!(parse_id("1a2B"), Some(0x1a2b));
    assert_eq!(parse_id("ffffffffffffffffffffffffffffffff"), Some(u128::MAX));
    assert_eq!(parse_id("0ffffffffffffffffffffffffffffffff"), Some(u128::MAX));
}

#[test]
fn malformed_ids_are_refused() {
    assert_eq!(parse_id(""), None);
    assert_eq!(parse_id("g"), None);
    assert_eq!(parse_id("1ffffffffffffffffffffffffffffffff"), None);
    assert_eq!(parse_id("12-34"), None);
}

#[test]
fn digits_depend_on_the_base() {
    assert_eq!(read_digit('9', 10), Some(9));
    assert_eq!(read_digit('a', 10), None);
    assert_eq!(read_digit('a', 16), Some(10));
    assert_eq!(read_digit('F', 16), Some(15));
    assert_eq!(read_digit('/', 16), None);
    assert_eq!(read_digit(':', 16), None);
    assert_eq!(read_digit('g', 16), None);
    assert_eq!(read_digit('@', 16), None);
    assert_eq!(read_digit('`', 16), None);
}

#[test]
fn numbers_stop_at_the_bound() {
    assert_eq!(read_number("100", 10, 100), Some(100));
    assert_eq!(read_number("101", 10, 100), None);
    assert_eq!(read_number("10", 16, 16), Some(16));
    assert_eq!(read_number("11", 16, 16), None);
}
