use flype_word::editable::{editable_to_entry, render_editable_words, EditableWord};
use flype_word::rows::{check_rows, count_errors, matches_search, neighbours, visible_rows};
use flype_word::{encode_entries, parse_word_list, EncodedEntry, WordEntry};

fn row(word: &str, frequency: &str, pinyin: &str) -> EditableWord {
    EditableWord {
        word: word.to_owned(),
        frequency: frequency.to_owned(),
        pinyin: pinyin.to_owned(),
        ..Default::default()
    }
}

#[test]
fn editable_rows_support_manual_polyphonic_pinyin() {
    let row = EditableWord {
        word: "重庆".to_owned(),
        frequency: "12".to_owned(),
        pinyin: "chong qing".to_owned(),
        ..Default::default()
    };
    let encoded = encode_entries(&[editable_to_entry(&row).unwrap()]).unwrap();
    assert_eq!(encoded[0].code, "isqk");
    assert_eq!(encoded[0].frequency, Some(12));
}

#[test]
fn editable_word_list_round_trips_through_core_parser() {
    let words = vec![
        EditableWord {
            word: "小鹤".to_owned(),
            frequency: "3".to_owned(),
            ..Default::default()
        },
        EditableWord {
            word: "音乐".to_owned(),
            pinyin: "yin yue".to_owned(),
            ..Default::default()
        },
    ];
    let parsed = parse_word_list(&render_editable_words(&words)).unwrap();
    assert_eq!(parsed.len(), 2);
    assert_eq!(parsed[0].frequency, Some(3));
    assert_eq!(
        parsed[1].pinyin.as_deref(),
        Some(&["yin".to_owned(), "yue".to_owned()][..])
    );
}

#[test]
fn invalid_frequency_is_rejected() {
    let row = EditableWord {
        word: "词库".to_owned(),
        frequency: "很多".to_owned(),
        ..Default::default()
    };
    assert_eq!(editable_to_entry(&row).unwrap_err(), "词频必须是非负整数");
}

#[test]
fn encoding_cache_only_recomputes_after_edits() {
    let mut row = EditableWord {
        word: "小鹤".to_owned(),
        ..Default::default()
    };
    row.refresh_encoding();
    assert_eq!(row.cached.as_ref().unwrap().as_ref().unwrap().code, "xnhe");

    // A made-up value shows that nothing is computed while the fields stay as they are.
    row.cached = Some(Ok(EncodedEntry {
        word: "小鹤".to_owned(),
        code: "cached".to_owned(),
        frequency: None,
    }));
    row.refresh_encoding();
    assert_eq!(
        row.cached.as_ref().unwrap().as_ref().unwrap().code,
        "cached"
    );

    row.pinyin = "xiao he".to_owned();
    row.refresh_encoding();
    assert_eq!(row.cached.as_ref().unwrap().as_ref().unwrap().code, "xnhe");
}

#[test]
fn empty_words_and_extreme_frequencies() {
    assert_eq!(editable_to_entry(&row(" \u{3000}", "", "")).unwrap_err(), "词语不能为空");
    let entry = editable_to_entry(&row(" 词库 ", " +18446744073709551615 ", "ci,ku；")).unwrap();
    assert_eq!(entry.word, "词库");
    assert_eq!(entry.frequency, Some(u64::MAX));
    assert_eq!(entry.pinyin, Some(vec!["ci".to_owned(), "ku".to_owned()]));
    for wrong in ["18446744073709551616", "-1", "1.5", "+", "1 2", "１"] {
        assert_eq!(
            editable_to_entry(&row("词库", wrong, "")).unwrap_err(),
            "词频必须是非负整数"
        );
    }
    assert_eq!(editable_to_entry(&row("词库", "0", " ，")).unwrap().pinyin, None);
}

#[test]
fn rows_are_made_of_entries() {
    let made = EditableWord::from_word_entry(
        7,
        WordEntry {
            word: "重庆".to_owned(),
            frequency: Some(20),
            pinyin: Some(vec!["chong".to_owned(), "qing".to_owned()]),
        },
    );
    assert_eq!(made.id, 7);
    assert_eq!(made.frequency, "20");
    assert_eq!(made.pinyin, "chong qing");
    assert_eq!(made.cache_key(), "重庆\u{1}20\u{1}chong qing");
    assert_eq!(made.clone(), made);
    assert_eq!(EditableWord::new(3).id, 3);
    assert_eq!(EditableWord::new(3).word, "");
}

#[test]
fn rows_are_written_with_their_columns() {
    let words = vec![row(" 小鹤 ", " 3 ", ""), row("  ", "9", "x"), row("音乐", "", " yin yue ")];
    assert_eq!(
        render_editable_words(&words),
        "# 词语\t词频\t拼音（可选）\n小鹤\t3\n音乐\t\tyin yue\n"
    );
}

#[test]
fn tabs_inside_pinyin_are_read_back_as_separators() {
    let words = vec![row("重庆", "", "chong\tqing"), row("词 库", "1", "")];
    let parsed = parse_word_list(&render_editable_words(&words)).unwrap();
    assert_eq!(
        parsed[0].pinyin,
        Some(vec!["chong".to_owned(), "qing".to_owned()])
    );
    assert_eq!(parsed[1].word, "词 库");
}

#[test]
fn checked_rows_have_a_code_or_an_error() {
    let mut rows = vec![
        row("词库", "2", ""),
        row(" 小鹤", "3", ""),
        row("小鹤 ", "4", ""),
        row("", "", ""),
        row("重庆", "x", ""),
        row("ok", "", ""),
        row("重庆市", "", "chong qing"),
    ];
    let entries = check_rows(&mut rows);
    let errors: Vec<Option<&str>> = rows.iter().map(|row| row.error.as_deref()).collect();
    assert_eq!(
        errors,
        [
            None,
            Some("词语重复"),
            Some("词语重复"),
            Some("词语不能为空"),
            Some("词频必须是非负整数"),
            Some("词语“ok”中的字符“o”无法转换为拼音"),
            Some("词语“重庆市”有 3 个字，但人工拼音有 2 个音节"),
        ]
    );
    assert_eq!(entries.len(), 1);
    assert_eq!(entries[0].code, "ciku");
    assert_eq!(rows[0].code, "ciku");
    assert_eq!(rows[1].code, "");
    assert_eq!(count_errors(&rows), 6);

    let before = rows.clone();
    assert_eq!(check_rows(&mut rows), entries);
    assert_eq!(rows, before);
}

#[test]
fn rows_are_found_by_word_pinyin_or_code() {
    let mut rows = vec![row("重庆ÀB", "", "Chong Qing a"), row("词库", "", ""), row("", "", "")];
    check_rows(&mut rows);
    assert_eq!(visible_rows(&rows, "  ", false), [0, 1, 2]);
    assert_eq!(visible_rows(&rows, " CHONG ", false), [0]);
    assert_eq!(visible_rows(&rows, "àb", false), [0]);
    assert_eq!(visible_rows(&rows, "KU", false), [1]);
    assert_eq!(visible_rows(&rows, "", true), [0, 2]);
    assert_eq!(visible_rows(&rows, "chong", true), [0]);
    assert!(visible_rows(&rows, "没有", false).is_empty());
    assert!(matches_search("abc", "", "", "bc"));
    assert!(!matches_search("abc", "ab", "", "bcd"));
    assert!(matches_search("", "", "", ""));
}

#[test]
fn neighbours_are_the_rows_that_are_shown() {
    let visible = [0, 2, 5];
    assert_eq!(neighbours(&visible, 0), (None, Some(2)));
    assert_eq!(neighbours(&visible, 1), (Some(0), Some(5)));
    assert_eq!(neighbours(&visible, 2), (Some(2), None));
    assert_eq!(neighbours(&[4], 0), (None, None));
}
