use emerald_legacy::java_region::JavaWorldReader;
use emerald_legacy::sign_text::{sanitize_legacy_sign_line, simplify_sign_text};

#[test]
fn sign_lines_drop_controls_and_stop_at_fifteen_bytes() {
    assert_eq!(sanitize_legacy_sign_line("a\tb\nc\r\0d"), "abcd");
    assert_eq!(sanitize_legacy_sign_line("abcdefghijklmnopqrst"), "abcdefghijklmno");
    assert_eq!(sanitize_legacy_sign_line("ééééééééé"), "éééééééé");
    assert_eq!(sanitize_legacy_sign_line("\u{7f}x\u{85}y"), "xy");
}

#[test]
fn sign_text_is_read_from_json() {
    assert_eq!(simplify_sign_text("  hello  "), "hello");
    assert_eq!(simplify_sign_text("{\"text\":\"Hi\",\"extra\":[{\"text\":\" there\"}]}"), "Hi there");
    assert_eq!(simplify_sign_text("[\"a\",{\"text\":\"b\"},3]"), "ab");
    assert_eq!(simplify_sign_text("\"quoted"), "quoted");
    assert_eq!(simplify_sign_text("{bad"), "{bad");
    assert_eq!(simplify_sign_text("\"plain\""), "plain");
}

#[test]
fn region_directories_are_joined_to_the_world() {
    let r = JavaWorldReader::new("/w");
    assert_eq!(r.get_region_dir(""), "/w/region");
    assert_eq!(r.get_region_dir("DIM-1"), "/w/DIM-1/region");
}
