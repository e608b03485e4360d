use ahqstore_appimage::disposition::guess_filename;
use ahqstore_appimage::text::{chars_of, same_text, string_of, to_decimal, to_hex};

#[test]
fn hex_is_lowercase_two_digits_per_byte() {
    assert_eq!(to_hex(&[0x00, 0x0f, 0xa0, 0xff]), "000fa0ff");
    assert_eq!(to_hex(&[]), "");
    let h = blake3::hash(b"abc");
    assert_eq!(to_hex(h.as_bytes()), h.to_string());
}

#[test]
fn decimal_has_no_leading_zeros() {
    for n in [0u64, 7, 10, 99, 100, 12345, u64::MAX] {
        assert_eq!(to_decimal(n), n.to_string());
    }
}

#[test]
fn text_helpers() {
    assert_eq!(chars_of("aé\n"), vec!['a', 'é', '\n']);
    assert_eq!(string_of(&vec!['x', 'ü']), "xü");
    assert!(same_text("abc", "abc"));
    assert!(!same_text("abc", "abd"));
    assert!(!same_text("ab", "abc"));
}

#[test]
fn filename_comes_from_the_content_disposition_header() {
    assert_eq!(guess_filename(Some("attachment; filename=\"tool.AppImage\"")).as_deref(), Some("tool.AppImage"));
    assert_eq!(guess_filename(Some("attachment; FileName=a.txt; size=3")).as_deref(), Some("a.txt"));
    assert_eq!(guess_filename(Some("inline")), None);
    assert_eq!(guess_filename(None), None);
    let h = "attachment; name=x; filename=y.bin";
    assert_eq!(
        guess_filename(Some(h)),
        content_disposition::parse_content_disposition(h).filename_full()
    );
}
