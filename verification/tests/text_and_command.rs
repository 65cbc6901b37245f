use volumesetup::command::{check_exit, from_utf8, CommandError, CommandLine};
use volumesetup::text::{decimal_string, parse_usize, strip_prefix};

#[test]
fn decimal_of_small_and_large_numbers() {
    assert_eq!(decimal_string(0), "0");
    assert_eq!(decimal_string(7), "7");
    assert_eq!(decimal_string(10), "10");
    assert_eq!(decimal_string(4096), "4096");
    assert_eq!(decimal_string(usize::MAX), usize::MAX.to_string());
}

#[test]
fn parse_accepts_plain_and_plus_signed_digits() {
    assert_eq!(parse_usize("0"), Some(0));
    assert_eq!(parse_usize("12"), Some(12));
    assert_eq!(parse_usize("+7"), Some(7));
    assert_eq!(parse_usize("007"), Some(7));
    assert_eq!(parse_usize(&usize::MAX.to_string()), Some(usize::MAX));
}

#[test]
fn parse_refuses_what_from_str_radix_refuses() {
    for s in ["", "+", "-", "-1", "1a", " 1", "1 ", "1_000", "++1", "١"] {
        assert_eq!(parse_usize(s), None, "{:?}", s);
        assert!(usize::from_str_radix(s, 10).is_err(), "{:?}", s);
    }
    let too_big = format!("{}0", usize::MAX);
    assert_eq!(parse_usize(&too_big), None);
}

#[test]
fn parse_agrees_with_from_str_radix() {
    for s in ["0", "1", "+0", "99", "+123456", "4294967296", "00000000000000000000001"] {
        assert_eq!(parse_usize(s), usize::from_str_radix(s, 10).ok(), "{:?}", s);
    }
}

#[test]
fn strip_prefix_takes_off_the_prefix_only() {
    assert_eq!(strip_prefix("dev-3", "dev-"), Some("3"));
    assert_eq!(strip_prefix("dev-", "dev-"), Some(""));
    assert_eq!(strip_prefix("de", "dev-"), None);
    assert_eq!(strip_prefix("label", "dev-"), None);
    assert_eq!(strip_prefix("größe", "grö"), Some("ße"));
}

#[test]
fn exit_code_zero_is_success() {
    assert_eq!(check_exit(Some(0), vec![1, 2, 3]).ok(), Some(vec![1, 2, 3]));
}

#[test]
fn nonzero_exit_or_signal_is_failure() {
    match check_exit(Some(2), vec![]) {
        Err(CommandError::ExitedWithError { code }) => assert_eq!(code, Some(2)),
        Ok(_) => panic!("a nonzero exit is a failure"),
    }
    match check_exit(None, vec![]) {
        Err(CommandError::ExitedWithError { code }) => assert_eq!(code, None),
        Ok(_) => panic!("a signal is a failure"),
    }
}

#[test]
fn utf8_bytes_become_text() {
    assert_eq!(from_utf8("héllo".as_bytes().to_vec()).ok(), Some("héllo".to_string()));
    assert_eq!(from_utf8(vec![]).ok(), Some(String::new()));
}

#[test]
fn invalid_utf8_is_refused_with_a_lossy_rendering() {
    match from_utf8(vec![b'a', 0xff, b'b']) {
        Err(e) => assert_eq!(e.lossy, "a\u{fffd}b"),
        Ok(_) => panic!("0xff is not UTF-8"),
    }
}

#[test]
fn command_line_collects_arguments_in_order() {
    let mut c = CommandLine::new("bcachefs");
    c.arg_str("device");
    c.arg("add".to_string());
    assert_eq!(c.program, "bcachefs");
    assert_eq!(c.args, vec!["device", "add"]);
    let d = c.duplicate();
    assert_eq!(d.program, c.program);
    assert_eq!(d.args, c.args);
}

#[test]
fn written_numbers_read_back() {
    for n in [0usize, 1, 9, 10, 99, 100, 12345, usize::MAX] {
        assert_eq!(parse_usize(&decimal_string(n)), Some(n));
    }
}
