use flype_word::frequency::{select_words, tally_words};
use flype_word::{extract_frequencies, parse_word_list, render_frequency_tsv, FrequencyEntry};
use jieba_rs::Jieba;

fn texts(values: &[&str]) -> Vec<String> {
    values.iter().map(|value| (*value).to_owned()).collect()
}

fn entry(word: &str, frequency: u64) -> FrequencyEntry {
    FrequencyEntry {
        word: word.to_owned(),
        frequency,
    }
}

#[test]
fn words_are_ranked_by_frequency_and_then_by_themselves() {
    let words = texts(&["乙", "甲", "丙丁", "甲", "丙", "丙丁", "一"]);
    assert_eq!(
        tally_words(&words, 1),
        [
            entry("丙丁", 2),
            entry("甲", 2),
            entry("一", 1),
            entry("丙", 1),
            entry("乙", 1)
        ]
    );
    assert_eq!(tally_words(&words, 2), [entry("丙丁", 2), entry("甲", 2)]);
    assert_eq!(tally_words(&words, 0), tally_words(&words, 1));
    assert!(tally_words(&[], 0).is_empty());
}

#[test]
fn words_that_cannot_be_spoken_do_not_count() {
    let tokens = texts(&[" 小鹤\n", "的", "，", "abc", "小a", "", " "]);
    assert_eq!(select_words(&tokens, false), ["小鹤"]);
    assert_eq!(select_words(&tokens, true), ["小鹤", "的"]);
}

#[test]
fn a_text_is_cut_into_words() {
    let jieba = Jieba::new();
    let text = "我们中出了一个叛徒，我们中国人。";
    let entries = extract_frequencies(&jieba, text, false, 1, false);
    assert_eq!(entries[0], entry("我们", 2));
    for found in &entries {
        assert!(text.contains(&found.word));
        assert!(found.word.chars().count() > 1);
    }
    let single = extract_frequencies(&jieba, text, false, 1, true);
    assert!(single.len() > entries.len());
    assert_eq!(extract_frequencies(&jieba, text, false, 2, false), [entry("我们", 2)]);
    assert!(extract_frequencies(&jieba, "", true, 0, true).is_empty());
}

#[test]
fn guessed_words_need_the_model() {
    let jieba = Jieba::new();
    let text = "他来到了网易杭研大厦";
    let with = extract_frequencies(&jieba, text, true, 1, false);
    let without = extract_frequencies(&jieba, text, false, 1, false);
    assert!(with.contains(&entry("杭研", 1)));
    assert!(!without.contains(&entry("杭研", 1)));
}

#[test]
fn frequency_lists_are_read_back() {
    let entries = vec![entry("小鹤双拼", 3), entry("词库", u64::MAX), entry("〇", 0)];
    let table = render_frequency_tsv(&entries);
    assert_eq!(
        table,
        "# 词语\t词频\t拼音（可选；多音字可填空格分隔的无声调拼音）\n小鹤双拼\t3\n词库\t18446744073709551615\n〇\t0\n"
    );
    let read = parse_word_list(&table).unwrap();
    assert_eq!(read.len(), 3);
    for (read, written) in read.iter().zip(&entries) {
        assert_eq!(read.word, written.word);
        assert_eq!(read.frequency, Some(written.frequency));
        assert_eq!(read.pinyin, None);
    }
}

#[test]
fn a_higher_least_frequency_gives_a_beginning_of_the_list() {
    let words = texts(&["乙", "甲", "丙丁", "甲", "丙", "丙丁", "一", "甲"]);
    let all = tally_words(&words, 0);
    for least in 0..5 {
        let fewer = tally_words(&words, least);
        assert_eq!(fewer, all[..fewer.len()]);
        assert!(all[fewer.len()..].iter().all(|entry| entry.frequency < least));
    }
}

#[test]
fn words_outside_the_pinyin_table_are_read_back_too() {
    let entries = vec![entry("a b", 1), entry("+5", 2), entry("c-#", 3)];
    let read = parse_word_list(&render_frequency_tsv(&entries)).unwrap();
    let words: Vec<&str> = read.iter().map(|entry| entry.word.as_str()).collect();
    assert_eq!(words, ["a b", "+5", "c-#"]);
}
