use pm::osproc::{terminate, TermError, DEFAULT_GRACE_MS};
use pm::text::{cut_str, dec_str, esc_str, unesc_str};

#[test]
fn terminate_confirms_a_nonexistent_process_gone() {
    // no process can bear this pid (far above any pid_max), so the protocol
    // reports the goal as already achieved
    let (res, _log) = terminate(i32::MAX, DEFAULT_GRACE_MS);
    assert!(matches!(res, Err(TermError::NoSuchProcess)));
}

#[test]
fn escaping_round_trips() {
    let plain = "a b\\c\nd";
    let escaped = esc_str(plain);
    assert_eq!(escaped, "a\\sb\\\\c\\nd");
    assert_eq!(unesc_str(escaped.as_str()), Some(plain.to_string()));
}

#[test]
fn unescaping_rejects_dangling_and_unknown_escapes() {
    assert_eq!(unesc_str("abc\\"), None);
    assert_eq!(unesc_str("a\\x"), None);
}

#[test]
fn cutting_splits_at_terminators() {
    let parts = cut_str("a b ", ' ').expect("terminated");
    assert_eq!(parts, vec!["a".to_string(), "b".to_string()]);
    assert_eq!(cut_str("a b", ' '), None);
    let parts = cut_str("", ' ').expect("empty text");
    assert!(parts.is_empty());
    let parts = cut_str("  ", ' ').expect("empty parts");
    assert_eq!(parts, vec!["".to_string(), "".to_string()]);
}

#[test]
fn decimal_rendering() {
    assert_eq!(dec_str(0), "0");
    assert_eq!(dec_str(9), "9");
    assert_eq!(dec_str(10), "10");
    assert_eq!(dec_str(4242), "4242");
    assert_eq!(dec_str(2147483647), "2147483647");
}
