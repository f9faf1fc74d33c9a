use bootc_lints::bytestr::{debug_quote, format_usize, is_utf8, quote_path};
use bootc_lints::engine::lint_list;

#[test]
fn decimal_rendering() {
    assert_eq!(format_usize(0), b"0".to_vec());
    assert_eq!(format_usize(7), b"7".to_vec());
    assert_eq!(format_usize(10), b"10".to_vec());
    assert_eq!(format_usize(255), b"255".to_vec());
    assert_eq!(format_usize(1203), b"1203".to_vec());
}

#[test]
fn quoting_raw_names() {
    assert_eq!(debug_quote(&b"abc".to_vec()), b"\"abc\"".to_vec());
    assert_eq!(debug_quote(&b"bad\xffdir".to_vec()), b"\"bad\\xFFdir\"".to_vec());
    assert_eq!(debug_quote(&b"a\"b\\c".to_vec()), b"\"a\\\"b\\\\c\"".to_vec());
    assert_eq!(quote_path(&b"/var/log".to_vec()), b"/var/log".to_vec());
    assert_eq!(quote_path(&b"/var/\x01".to_vec()), b"\"/var/\\x01\"".to_vec());
}

#[test]
fn utf8_detection() {
    assert!(is_utf8(&b"plain ascii".to_vec()));
    assert!(is_utf8(&"héllo".as_bytes().to_vec()));
    assert!(!is_utf8(&b"bad\xff".to_vec()));
    assert!(!is_utf8(&b"\xc3".to_vec()));
}

#[test]
fn listing_starts_in_canonical_order() {
    let mut out: Vec<u8> = Vec::new();
    lint_list(&mut out);
    let text = String::from_utf8(out).unwrap();
    assert!(text.starts_with("- name: api-base-directories\n  type: fatal\n"));
    assert!(text.contains("- name: var-tmpfiles\n  type: warning\n"));
    assert!(text.contains("  root-type: running\n"));
    assert!(text.contains("  root-type: alternative\n"));
}
