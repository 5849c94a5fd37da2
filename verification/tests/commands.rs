use flype_word::cli::{
    encode_word_list, extract_table, is_standard_stream, output_bytes, read_command,
    read_encode_arguments, read_extract_arguments, Command, EncodeArguments, ExtractArguments,
};
use jieba_rs::Jieba;

fn arguments(values: &[&str]) -> Vec<String> {
    values.iter().map(|value| (*value).to_owned()).collect()
}

#[test]
fn commands_are_known_by_their_names() {
    for (values, command) in [
        (&["flype-word"][..], Command::Help),
        (&["flype-word", "-h"][..], Command::Help),
        (&["flype-word", "--help"][..], Command::Help),
        (&["flype-word", "help"][..], Command::Help),
        (&["flype-word", "-V"][..], Command::Version),
        (&["flype-word", "--version"][..], Command::Version),
        (&["flype-word", "version"][..], Command::Version),
        (&["flype-word", "extract", "x"][..], Command::Extract),
        (&["flype-word", "encode"][..], Command::Encode),
    ] {
        assert_eq!(read_command(&arguments(values)).unwrap(), command);
    }
    assert_eq!(
        read_command(&arguments(&["flype-word", "Encode"]))
            .unwrap_err()
            .message(),
        "未知命令“Encode”。运行 flype-word --help 查看用法"
    );
}

#[test]
fn options_of_extract() {
    assert_eq!(
        read_extract_arguments(&arguments(&["a.txt", "b.tsv"])).unwrap(),
        Some(ExtractArguments {
            paths: arguments(&["a.txt", "b.tsv"]),
            min_frequency: 1,
            include_single: false,
            hmm: true,
            user_dict: None,
        })
    );
    assert_eq!(
        read_extract_arguments(&arguments(&[
            "--min-frequency",
            "2",
            "-",
            "--no-hmm",
            "--user-dict",
            "--include-single",
            "b.tsv",
            "--include-single",
            "--min-frequency",
            "3",
        ]))
        .unwrap(),
        Some(ExtractArguments {
            paths: arguments(&["-", "b.tsv"]),
            min_frequency: 3,
            include_single: true,
            hmm: false,
            user_dict: Some("--include-single".to_owned()),
        })
    );
    assert_eq!(
        read_extract_arguments(&arguments(&["--wrong", "--help"])).unwrap(),
        None
    );
    for (values, message) in [
        (
            &["a"][..],
            "extract 需要两个路径参数；运行 flype-word extract --help 查看示例",
        ),
        (&["a", "b", "--min-frequency"][..], "选项 --min-frequency 缺少参数"),
        (&["a", "b", "--user-dict"][..], "选项 --user-dict 缺少参数"),
        (
            &["--min-frequency", "-1", "a", "b"][..],
            "--min-frequency 必须是非负整数",
        ),
        (&["a", "b", "--conflicts", "c"][..], "extract 不支持选项“--conflicts”"),
    ] {
        assert_eq!(
            read_extract_arguments(&arguments(values))
                .unwrap_err()
                .message(),
            message
        );
    }
}

#[test]
fn options_of_encode() {
    assert_eq!(
        read_encode_arguments(&arguments(&[
            "a.tsv",
            "--conflicts",
            "c.tsv",
            "--with-flypy-header",
            "b.txt"
        ]))
        .unwrap(),
        Some(EncodeArguments {
            paths: arguments(&["a.tsv", "b.txt"]),
            conflicts: Some("c.tsv".to_owned()),
            with_flypy_header: true,
        })
    );
    assert_eq!(read_encode_arguments(&arguments(&["a", "-h"])).unwrap(), None);
    for (values, message) in [
        (
            &["a", "b", "c"][..],
            "encode 需要两个路径参数；运行 flype-word encode --help 查看示例",
        ),
        (&["a", "b", "--conflicts"][..], "选项 --conflicts 缺少参数"),
        (&["a", "--no-hmm", "b"][..], "encode 不支持选项“--no-hmm”"),
    ] {
        assert_eq!(
            read_encode_arguments(&arguments(values))
                .unwrap_err()
                .message(),
            message
        );
    }
}

#[test]
fn real_text_extract_then_encode_end_to_end() {
    let mut jieba = Jieba::new();
    jieba.add_word("小鹤双拼", Some(100_000), None);
    jieba.add_word("词库生成器", Some(100_000), None);
    let text = "小鹤双拼是一种输入方案。小鹤双拼的词库生成器，由词库生成器生成小鹤双拼的词库。";
    let request = ExtractArguments {
        paths: vec![],
        min_frequency: 2,
        include_single: false,
        hmm: true,
        user_dict: None,
    };
    let (table, summary) = extract_table(&jieba, text, &request);
    assert!(summary.contains("已导出"));
    assert!(
        table.lines().any(|line| line == "小鹤双拼\t3"),
        "{table}"
    );
    assert!(
        table.lines().any(|line| line == "词库生成器\t2"),
        "{table}"
    );

    let list = "小鹤\n计算机\n知识库\n双拼方案\n中华人民共和国\n重庆\t9\tchong qing\n音乐\tyin yue\n时\n是\n";
    let encoding = encode_word_list(list, true).unwrap();
    assert_eq!(encoding.summary, "已编码 9 个词语，发现 1 组重码。");
    assert_eq!(
        encoding.dictionary,
        "\
---config@码表分类=主码-用户码表
---config@码表别名=用户
小鹤\txnhe
计算机\tjsji
知识库\tvuku
双拼方案\tupfa
中华人民共和国\tvhrg
重庆\tisqk
音乐\tybyt
时\tui
是\tui
"
    );
    assert_eq!(encoding.report, "# 编码\t重码词\nui\t时 是\n");
    let file = output_bytes("conflicts.tsv", &encoding.report);
    assert_eq!(&file[..3], [0xEF, 0xBB, 0xBF]);
}

#[test]
fn stdin_stdout_pipeline_is_clean_utf8_without_bom() {
    let encoding = encode_word_list("小鹤\n", false).unwrap();
    let output = output_bytes("-", &encoding.dictionary);
    assert_eq!(output, "小鹤\txnhe\n".as_bytes());
    assert!(!output.starts_with(&[0xef, 0xbb, 0xbf]));
    assert_eq!(encoding.summary, "已编码 1 个词语，发现 0 组重码。");
    assert!(is_standard_stream("-"));
    assert!(!is_standard_stream("--"));
}

#[test]
fn invalid_manual_pronunciation_fails_without_creating_dictionary() {
    let error = encode_word_list("小鹤\n重庆\t9\tchong\n", false).unwrap_err();
    assert!(error
        .message()
        .contains("词语“重庆”有 2 个字，但人工拼音有 1 个音节"));
}

#[test]
fn repeated_words_fail_with_their_line() {
    let error = encode_word_list("# 注释\n小鹤\n\n词库\n小鹤\t2\n", false).unwrap_err();
    assert_eq!(error.message(), "第 5 行出现重复词语“小鹤”");
}
