use flype_word::{
    encode_entries, find_conflicts, parse_word_list, parse_word_list_lenient, render_conflicts,
    render_encoded, EncodedEntry, WordEntry,
};

fn syllables(values: &[&str]) -> Vec<String> {
    values.iter().map(|value| (*value).to_owned()).collect()
}

#[test]
fn parses_optional_frequency_and_pinyin() {
    let entries =
        parse_word_list("# comment\n小鹤双拼\t12\n重庆\t9\tchong qing\n音乐\tyin yue\n词语\n")
            .unwrap();
    assert_eq!(entries.len(), 4);
    assert_eq!(entries[0].frequency, Some(12));
    assert_eq!(
        entries[1].pinyin.as_deref(),
        Some(&syllables(&["chong", "qing"])[..])
    );
    assert_eq!(entries[2].frequency, None);
    assert_eq!(
        entries[2].pinyin.as_deref(),
        Some(&syllables(&["yin", "yue"])[..])
    );
    assert_eq!(entries[3].pinyin, None);
}

#[test]
fn strict_parsing_rejects_duplicates_but_lenient_keeps_them() {
    let input = "小鹤\t3\n小鹤\t4\n";
    assert!(parse_word_list(input).is_err());
    let entries = parse_word_list_lenient(input);
    assert_eq!(entries.len(), 2);
    assert_eq!(entries[0].word, "小鹤");
    assert_eq!(entries[1].frequency, Some(4));
}

#[test]
fn rejects_wrong_pronunciation_length() {
    let entries = vec![WordEntry {
        word: "重庆".to_owned(),
        frequency: None,
        pinyin: Some(syllables(&["chong"])),
    }];
    assert!(encode_entries(&entries).is_err());
}

#[test]
fn reports_code_conflicts() {
    let entries = vec![
        EncodedEntry {
            word: "甲乙".to_owned(),
            code: "abcd".to_owned(),
            frequency: None,
        },
        EncodedEntry {
            word: "丙丁".to_owned(),
            code: "abcd".to_owned(),
            frequency: None,
        },
    ];
    let conflicts = find_conflicts(&entries);
    let group = conflicts
        .iter()
        .find(|group| group.code == "abcd")
        .unwrap();
    assert_eq!(group.words, ["甲乙", "丙丁"]);
}

#[test]
fn lines_are_read_in_all_their_forms() {
    let input = "\u{feff}小鹤 3 xiao he\r\n \t \r\n#词库\n---config@x=y\n重庆\tchong，qing\t市\n\u{feff}\u{feff}音乐\t\tYin4/yue4\n词库\t-1\n甲乙\t+7\t\n\t丙\n";
    let entries = parse_word_list(input).unwrap();
    let read: Vec<(&str, Option<u64>, Option<Vec<String>>)> = entries
        .iter()
        .map(|entry| (entry.word.as_str(), entry.frequency, entry.pinyin.clone()))
        .collect();
    assert_eq!(
        read,
        [
            ("小鹤", Some(3), Some(syllables(&["xiao", "he"]))),
            ("重庆", None, Some(syllables(&["chong", "qing", "市"]))),
            ("音乐", None, Some(syllables(&["yin", "yue"]))),
            ("词库", None, Some(syllables(&["-"]))),
            ("甲乙", Some(7), None),
            ("丙", None, None),
        ]
    );
    assert!(parse_word_list("").unwrap().is_empty());
}

#[test]
fn repeated_words_are_named_with_their_line() {
    let error = parse_word_list("甲\n\n# 甲\n乙\n甲\t5\n乙\n").unwrap_err();
    assert_eq!(error.message(), "第 5 行出现重复词语“甲”");
}

#[test]
fn conflicts_are_in_the_order_of_their_codes() {
    let entry = |word: &str, code: &str| EncodedEntry {
        word: word.to_owned(),
        code: code.to_owned(),
        frequency: None,
    };
    let entries = [
        entry("丁", "b"),
        entry("丙", "ab"),
        entry("乙", "b"),
        entry("甲", "ab"),
        entry("戊", "c"),
        entry("己", "b"),
    ];
    let conflicts = find_conflicts(&entries);
    assert_eq!(conflicts.len(), 2);
    assert_eq!(
        render_conflicts(&conflicts),
        "# 编码\t重码词\nab\t丙 甲\nb\t丁 乙 己\n"
    );
    assert_eq!(render_conflicts(&find_conflicts(&[])), "# 编码\t重码词\n");
}

#[test]
fn dictionaries_are_written_with_or_without_their_head() {
    let entries = encode_entries(&parse_word_list("小鹤\t3\n").unwrap()).unwrap();
    assert_eq!(entries[0].frequency, Some(3));
    assert_eq!(render_encoded(&entries, false), "小鹤\txnhe\n");
    assert_eq!(
        render_encoded(&[], true),
        "---config@码表分类=主码-用户码表\n---config@码表别名=用户\n"
    );
}
