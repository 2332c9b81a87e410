use file_merger::lines::split_lines;
use file_merger::merger::{same_bytes, starts_with_bytes};

#[test]
fn split_terminated_lines() {
    assert_eq!(split_lines(b"a\nbc\n"), vec![b"a".to_vec(), b"bc".to_vec()]);
}

#[test]
fn split_keeps_last_unterminated_line() {
    assert_eq!(split_lines(b"a\nlast"), vec![b"a".to_vec(), b"last".to_vec()]);
}

#[test]
fn split_empty_and_blank_lines() {
    assert!(split_lines(b"").is_empty());
    assert_eq!(split_lines(b"\n\n"), vec![Vec::new(), Vec::new()]);
}

#[test]
fn split_keeps_carriage_return() {
    assert_eq!(split_lines(b"x\r\n"), vec![b"x\r".to_vec()]);
}

#[test]
fn prefix_and_equality() {
    assert!(starts_with_bytes(b"abc", b"ab"));
    assert!(starts_with_bytes(b"abc", b""));
    assert!(!starts_with_bytes(b"ab", b"abc"));
    assert!(!starts_with_bytes(b"xbc", b"ab"));
    assert!(same_bytes(b"ab", b"ab"));
    assert!(!same_bytes(b"ab", b"abc"));
    assert!(!same_bytes(b"ab", b"ac"));
}
