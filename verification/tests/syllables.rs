use flype_word::encode::pronounce;
use flype_word::syllable::{clean_syllable, first_letter};
use flype_word::{encode_syllable, encode_word_from_pinyin, word_pinyin};

fn syllables(values: &[&str]) -> Vec<String> {
    values.iter().map(|value| (*value).to_owned()).collect()
}

#[test]
fn encodes_xiaohe_syllables() {
    let cases = [
        ("xiao", "xn"),
        ("he", "he"),
        ("shuang", "ul"),
        ("pin", "pb"),
        ("yin", "yb"),
        ("zhong", "vs"),
        ("lüe", "lt"),
        ("ju", "ju"),
        ("yuan", "yr"),
        ("ang", "ah"),
    ];
    for (pinyin, expected) in cases {
        assert_eq!(encode_syllable(pinyin).unwrap(), expected);
    }
}

#[test]
fn applies_word_length_rules() {
    assert_eq!(
        encode_word_from_pinyin(&syllables(&["xiao", "he"])).unwrap(),
        "xnhe"
    );
    assert_eq!(
        encode_word_from_pinyin(&syllables(&["ji", "suan", "ji"])).unwrap(),
        "jsji"
    );
    assert_eq!(
        encode_word_from_pinyin(&syllables(&["shuang", "pin", "fang", "an"])).unwrap(),
        "upfa"
    );
    assert_eq!(
        encode_word_from_pinyin(&syllables(&[
            "zhong", "hua", "ren", "min", "gong", "he", "guo"
        ]))
        .unwrap(),
        "vhrg"
    );
}

#[test]
fn zero_initial_syllables_follow_the_length_rules() {
    for (syllable, expected) in [("a", "aa"), ("o", "oo"), ("e", "ee")] {
        assert_eq!(encode_syllable(syllable).unwrap(), expected);
    }
    for syllable in ["ai", "ei", "ao", "ou", "an", "en", "er"] {
        assert_eq!(encode_syllable(syllable).unwrap(), syllable);
    }
    assert_eq!(encode_syllable("ang").unwrap(), "ah");
    assert_eq!(encode_syllable("eng").unwrap(), "eg");

    assert_eq!(encode_syllable("hai").unwrap(), "hd");
    assert_eq!(encode_syllable("gei").unwrap(), "gw");

    assert!(encode_syllable("ez").is_err());
    assert!(encode_syllable("aq").is_err());
}

#[test]
fn word_codes_use_the_xiaohe_initial_key_for_zh_ch_sh() {
    assert_eq!(
        encode_word_from_pinyin(&syllables(&["zhi", "shi", "ku"])).unwrap(),
        "vuku"
    );
    assert_eq!(
        encode_word_from_pinyin(&syllables(&["chi", "fan"])).unwrap(),
        "iifj"
    );
    assert_eq!(
        encode_word_from_pinyin(&syllables(&["chong", "qing", "shi"])).unwrap(),
        "iqui"
    );
    assert_eq!(
        encode_word_from_pinyin(&syllables(&["zhong", "guo", "ren", "min"])).unwrap(),
        "vgrm"
    );
    for syllable in [
        "zhi", "chi", "shi", "zha", "chuang", "shuo", "si", "ci", "zi",
    ] {
        let full = encode_syllable(syllable).unwrap();
        assert_eq!(
            first_letter(syllable).unwrap(),
            full.chars().next().unwrap(),
            "音节 {syllable} 的首字母和全码 {full} 的第一键不一致"
        );
    }
}

#[test]
fn syllables_are_brought_into_normal_form() {
    for (typed, expected) in [
        (" ZHONG1 ", "vs"),
        ("lu:4", "lv"),
        ("LÜ", "lv"),
        ("Nüe5", "nt"),
    ] {
        assert_eq!(encode_syllable(typed).unwrap(), expected);
    }
    assert_eq!(
        encode_syllable("ma０").unwrap_err().message(),
        "无法识别拼音音节“ma０”的韵母“a０”"
    );
    // Lower case goes beyond plain letters: the Kelvin sign is a `k`.
    assert_eq!(encode_syllable("\u{212a}e").unwrap(), "ke");
    assert_eq!(clean_syllable("lu:e3"), "lve");
    assert_eq!(clean_syllable("a 5"), "a ");
}

#[test]
fn syllables_that_cannot_be_encoded_are_named() {
    for (typed, message) in [
        ("", "无法识别拼音音节“”的声母"),
        ("Ez", "无法识别拼音音节“Ez”的声母"),
        ("zhx", "无法识别拼音音节“zhx”的韵母“x”"),
        ("b", "无法识别拼音音节“b”的韵母“”"),
    ] {
        assert_eq!(encode_syllable(typed).unwrap_err().message(), message);
    }
    assert_eq!(first_letter("Éa").unwrap_err().message(), "无法取得拼音“Éa”的首字母");
    assert_eq!(first_letter("5").unwrap_err().message(), "无法取得拼音“5”的首字母");
    assert_eq!(first_letter("ez").unwrap(), 'e');
    assert_eq!(
        encode_word_from_pinyin(&[]).unwrap_err().message(),
        "不能编码空词语"
    );
    assert_eq!(
        encode_word_from_pinyin(&syllables(&["xiao", "5", "he"]))
            .unwrap_err()
            .message(),
        "无法取得拼音“5”的首字母"
    );
}

#[test]
fn words_are_spoken_character_by_character() {
    assert_eq!(word_pinyin("小鹤").unwrap(), ["xiao", "he"]);
    assert_eq!(word_pinyin("女").unwrap(), ["nv"]);
    assert_eq!(word_pinyin("").unwrap(), Vec::<String>::new());
    assert_eq!(
        word_pinyin("小x").unwrap_err().message(),
        "词语“小x”中的字符“x”无法转换为拼音"
    );
    assert_eq!(
        pronounce("小x", &[Some("XIAO3".to_owned()), Some("ex".to_owned())]).unwrap(),
        ["xiao", "ex"]
    );
    assert_eq!(
        pronounce("小x", &[None, None]).unwrap_err().message(),
        "词语“小x”中的字符“小”无法转换为拼音"
    );
}

#[test]
fn the_table_of_pinyin_begins_where_it_is_said_to() {
    for c in ('\0'..'\u{3007}').chain(['\u{feff}']) {
        assert!(word_pinyin(&c.to_string()).is_err());
    }
    assert!(word_pinyin("\u{3007}").is_ok());
}

#[test]
fn plain_letters_become_small_and_others_stay() {
    for c in ('\0'..='\u{7f}').chain(['ü']) {
        let text = format!("x{c}x");
        let small: String = text.chars().map(|c| c.to_ascii_lowercase()).collect();
        assert_eq!(text.to_lowercase(), small);
    }
    assert_eq!("xÜx".to_lowercase(), "xüx");
}

#[test]
fn spellings_of_a_syllable_have_the_same_code() {
    for syllable in [
        "xiao", "lüe", "LÜE", "nü", "uü", "Uü", "ü:", "ang", "ez", "", "zhong", "\u{212a}e", "bΣ", "üΣ",
        "Σü", "xΣa", "\u{130}ü", "小",
    ] {
        let code = encode_syllable(syllable).ok();
        let key = first_letter(syllable).ok();
        for tone in '0'..='5' {
            assert_eq!(encode_syllable(&format!("{syllable}{tone}")).ok(), code);
        }
        for spelling in [
            syllable.to_ascii_uppercase(),
            format!(" {syllable}\t\u{3000}"),
            syllable.replace('ü', "v"),
            syllable.replace('ü', "u:"),
        ] {
            assert_eq!(encode_syllable(&spelling).ok(), code, "{spelling}");
            assert_eq!(first_letter(&spelling).ok(), key, "{spelling}");
        }
    }
    assert_eq!(encode_syllable("LÜE").unwrap(), "lt");
    assert!(encode_syllable("bΣ").is_err());
}

#[test]
fn characters_are_put_in_lower_case_by_themselves() {
    for c in ('\0'..=char::MAX).filter(|c| *c != 'Σ') {
        let alone = c.to_string().to_lowercase();
        assert_eq!(format!("A{c}ü:Ü{c}1").to_lowercase(), format!("a{alone}ü:ü{alone}1"));
    }
    for text in ["Σ", "aΣ", "aΣ1", "a:Σ:b", "ΣΣ", "1Σ"] {
        let lower = text.to_lowercase();
        assert!(lower.contains('σ') || lower.contains('ς'));
    }
}
