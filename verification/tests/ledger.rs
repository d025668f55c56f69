use lisa::ledger::{input_hash, preview_of, PREVIEW_CHARS};

#[test]
fn preview_is_bounded_and_single_line() {
    let p = preview_of(&format!("line1\nline2 {}", "x".repeat(500)));
    assert!(p.len() <= 160);
    assert!(!p.contains('\n'));
}

#[test]
fn preview_keeps_short_text_and_flattens_line_breaks() {
    assert_eq!(preview_of("a\r\nb"), "a  b");
    assert_eq!(preview_of("short"), "short");
    assert_eq!(preview_of(&"é".repeat(200)).chars().count(), PREVIEW_CHARS);
}

#[test]
fn input_hash_is_the_blake3_hex_of_the_text() {
    assert_eq!(input_hash(""), "af1349b9f5f9a1a6a0404dea36dcc9499bcb25c9adc112b7cc9a93cae41f3262");
    assert_eq!(input_hash("hello"), blake3::hash(b"hello").to_hex().to_string());
    assert_ne!(input_hash("hello"), "hello");
    assert_eq!(input_hash("é").len(), 64);
}
