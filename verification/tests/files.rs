use flype_word::decode::{accept_fallback, accept_marked, decode_text, encode_file, read_utf8};
use flype_word::preview::preview_slice;
use flype_word::text::{contains_text, CharClass};

#[test]
fn gbk_and_utf8_files_are_both_decoded() {
    let (text, encoding) = decode_text("中文\n".as_bytes()).unwrap();
    assert_eq!(text, "中文\n");
    assert_eq!(encoding, "UTF-8");

    let (text, encoding) = decode_text(&[0xD6, 0xD0, 0xCE, 0xC4, 0x0D, 0x0A]).unwrap();
    assert_eq!(text, "中文\r\n");
    assert_eq!(encoding, "gb18030");

    let (text, encoding) = decode_text(&[0xEF, 0xBB, 0xBF, 0xE4, 0xB8, 0xAD]).unwrap();
    assert_eq!(text, "中");
    assert_eq!(encoding, "UTF-8");
}

#[test]
fn marks_of_utf_16_are_followed() {
    let little = [0xFF, 0xFE, 0x2D, 0x4E, 0x87, 0x65];
    assert_eq!(
        decode_text(&little),
        Some(("中文".to_owned(), "UTF-16LE"))
    );
    let big = [0xFE, 0xFF, 0x4E, 0x2D, 0x65, 0x87];
    assert_eq!(decode_text(&big), Some(("中文".to_owned(), "UTF-16BE")));
    // A lone surrogate is an error; what follows the mark is nothing else either.
    assert_eq!(decode_text(&[0xFF, 0xFE, 0x00, 0xD8]), None);
    assert_eq!(decode_text(&[0xFE, 0xFF, 0xD8, 0x00]), None);
    assert_eq!(
        accept_marked(&little, ("x".to_owned(), true)),
        None
    );
    assert_eq!(
        accept_marked(b"ab", ("x".to_owned(), false)),
        None
    );
}

#[test]
fn big5_comes_last() {
    // 0x7F follows no lead byte in any of the encodings.
    let bytes = [0xA4, 0xA4, 0xA4, 0xE5, 0xC8, 0x7F];
    assert!(decode_text(&bytes).is_none());
    assert_eq!(
        accept_fallback(None, Some("中".to_owned())),
        Some(("中".to_owned(), "Big5"))
    );
    assert_eq!(
        accept_fallback(Some("甲".to_owned()), Some("中".to_owned())),
        Some(("甲".to_owned(), "gb18030"))
    );
    assert_eq!(accept_fallback(None, None), None);
}

#[test]
fn saved_texts_are_read_back() {
    for text in ["", "小鹤\txnhe\n", "\u{feff}a", "\u{10ffff}"] {
        let bytes = encode_file(text);
        assert_eq!(&bytes[..3], [0xEF, 0xBB, 0xBF]);
        assert_eq!(decode_text(&bytes), Some((text.to_owned(), "UTF-8")));
    }
    assert_eq!(
        read_utf8("中".as_bytes()),
        Some(("中".to_owned(), "UTF-8"))
    );
    assert_eq!(read_utf8(&[0xC0, 0x80]), None);
    assert_eq!(read_utf8(&[0xED, 0xA0, 0x80]), None);
}

#[test]
fn preview_is_truncated_by_line_count() {
    let text = "a\nb\nc\nd\n";
    assert_eq!(preview_slice(text, 2), ("a\nb\n", true));
    assert_eq!(preview_slice(text, 10), (text, false));
    assert_eq!(preview_slice("", 10), ("", false));
}

#[test]
fn previews_at_the_limit() {
    assert_eq!(preview_slice("甲\n乙", 2), ("甲\n乙", false));
    assert_eq!(preview_slice("甲\n乙", 1), ("甲\n", true));
    assert_eq!(preview_slice("甲\n\n", 2), ("甲\n\n", false));
    assert_eq!(preview_slice("甲", 0), ("", true));
    assert_eq!(preview_slice("", 0), ("", false));
}

#[test]
fn white_space_is_that_of_unicode() {
    for c in '\0'..=char::MAX {
        assert_eq!(CharClass::WhiteSpace.contains(c), c.is_whitespace());
    }
}

#[test]
fn texts_are_found_in_texts() {
    for (whole, part) in [("abc", "bc"), ("abc", ""), ("", ""), ("aab", "ab"), ("", "a"), ("ab", "abc")] {
        assert_eq!(contains_text(whole, part), whole.contains(part));
    }
}
