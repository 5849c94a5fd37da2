use flype_word::editor::{
    decode_file, CellEdit, Column, Editor, ExitAnswer, FilePath, Screen, SegmentEvent, Start,
};
use flype_word::{FrequencyEntry, WordEntry};

fn path(text: &str) -> FilePath {
    FilePath {
        key: text.as_bytes().to_vec(),
        text: text.to_owned(),
    }
}

fn word(text: &str) -> WordEntry {
    WordEntry {
        word: text.to_owned(),
        frequency: None,
        pinyin: None,
    }
}

fn read(text: &str) -> Result<(String, &'static str), String> {
    Ok((text.to_owned(), "UTF-8"))
}

fn order(editor: &Editor) -> Vec<&str> {
    editor.words.iter().map(|row| row.word.as_str()).collect()
}

#[test]
fn rows_move_by_visible_order() {
    let mut app = Editor::new();
    app.replace_words(
        ["甲", "乙", "丙"]
            .into_iter()
            .map(|word| WordEntry {
                word: word.to_owned(),
                frequency: None,
                pinyin: None,
            })
            .collect(),
    );

    // Past the row between them, which a filter may hide.
    app.move_row(0, 2);
    assert_eq!(order(&app), ["乙", "丙", "甲"]);

    app.move_row(2, 0);
    assert_eq!(order(&app), ["甲", "乙", "丙"]);

    app.move_row(1, 9);
    assert_eq!(order(&app), ["甲", "丙", "乙"]);
    app.move_row(3, 0);
    assert_eq!(order(&app), ["甲", "丙", "乙"]);
}

#[test]
fn importing_duplicates_reports_rows_instead_of_refusing_the_file() {
    let mut app = Editor::new();
    let bytes = "小鹤\t3\n小鹤\t4\n词库\t2\n".as_bytes();
    app.load_word_list(path("list.tsv"), decode_file("list.tsv", bytes));

    assert_eq!(app.words.len(), 3, "重复词语不该让整份文件被退回");
    assert_eq!(app.error_count(), 2, "两行重复都应标成错误");
    assert!(app.only_errors, "导入有问题时应自动切到“只看错误”");
    assert_eq!(app.words[2].code, "ciku", "没有重复的那一行应该正常出码");
    assert!(app.status_is_error);
    assert_eq!(
        app.status,
        "已导入 3 个词语，其中 2 行有问题（已切换到“只看错误”）：list.tsv"
    );
    assert_eq!(app.screen, Screen::Words);
    assert!(app.unsaved);
}

#[test]
fn lists_and_texts_are_opened() {
    let mut app = Editor::new();
    assert_eq!(app.status, "请打开文本文件、拖入文件，或直接粘贴原文。");
    app.load_word_list(path("a.tsv"), read("小鹤\t3\n"));
    assert_eq!(app.status, "已导入 1 个词语：a.tsv");
    assert!(!app.only_errors);
    assert_eq!(app.output_text.lines().last(), Some("小鹤\txnhe"));

    app.load_source(path("b.txt"), read("原文"));
    assert_eq!(app.status, "已打开：b.txt");
    assert_eq!(app.screen, Screen::Source);
    app.load_source(path("c.txt"), Ok(("中文".to_owned(), "gb18030")));
    assert_eq!(app.status, "已按 gb18030 解码打开：c.txt");
    assert_eq!(app.source_text, "中文");
    app.load_source(path("d.txt"), Err("坏了".to_owned()));
    assert_eq!(app.status, "坏了");
    assert!(app.status_is_error);
    assert_eq!(app.source_text, "中文");
    app.load_word_list(path("d.txt"), Err("又坏了".to_owned()));
    assert_eq!(app.status, "又坏了");
    assert_eq!(app.words.len(), 1);

    app.clear_source();
    assert_eq!(app.status, "已清空原文和已生成的词表。");
    assert!(app.words.is_empty() && app.encoded.is_empty() && !app.unsaved);
    assert_eq!(app.output_text, "");
}

#[test]
fn unknown_encodings_are_reported() {
    assert_eq!(
        decode_file("x.bin", &[0xFF, 0xFF, 0x80]).unwrap_err(),
        "无法识别文件 x.bin 的编码，请另存为 UTF-8 后重试。"
    );
}

#[test]
fn segmentation_is_started_once_and_ends() {
    let mut app = Editor::new();
    app.source_text = " \n\u{3000}".to_owned();
    assert_eq!(app.start_segmentation(), Start::NoText);
    assert_eq!(app.status, "原文为空，无法分词。");
    assert!(app.status_is_error);

    app.source_text = "小鹤双拼".to_owned();
    app.poll_segmentation(SegmentEvent::Lost);
    assert_eq!(app.status, "原文为空，无法分词。");

    let start = app.start_segmentation();
    let options = app.current_options();
    assert_eq!(
        start,
        Start::Run {
            reuse: false,
            options
        }
    );
    assert_eq!(app.status, "正在分词，请稍候……");
    assert_eq!(app.start_segmentation(), Start::Busy);
    app.poll_segmentation(SegmentEvent::Pending);
    assert!(app.segmenting);
    app.poll_segmentation(SegmentEvent::Lost);
    assert_eq!(app.status, "分词任务意外结束，请重试。");
    assert!(!app.segmenting);

    app.start_segmentation();
    app.poll_segmentation(SegmentEvent::Failed("词典坏了".to_owned()));
    assert_eq!(app.status, "词典坏了");
    assert!(!app.has_segmenter);

    app.start_segmentation();
    let options = app.current_options();
    app.poll_segmentation(SegmentEvent::Ready {
        entries: vec![
            FrequencyEntry {
                word: "双拼".to_owned(),
                frequency: 2,
            },
            FrequencyEntry {
                word: "小鹤".to_owned(),
                frequency: 1,
            },
        ],
        options,
    });
    assert_eq!(app.status, "分词完成，共得到 2 个词语。");
    assert_eq!(app.screen, Screen::Words);
    assert_eq!(app.words[0].frequency, "2");
    assert_eq!(app.words[1].code, "xnhe");
    assert!(!app.options_are_stale());

    // The segmenter is kept as long as the dictionary stays the same.
    match app.start_segmentation() {
        Start::Run { reuse, .. } => assert!(reuse),
        other => panic!("{other:?}"),
    }
    app.poll_segmentation(SegmentEvent::Lost);
    app.choose_user_dict(path("user.txt"));
    assert_eq!(app.status, "已选择用户词典：user.txt");
    assert!(app.options_are_stale());
    match app.start_segmentation() {
        Start::Run { reuse, options } => {
            assert!(!reuse);
            assert_eq!(options.user_dict, Some(path("user.txt")));
        }
        other => panic!("{other:?}"),
    }
    app.remove_user_dict();
    assert!(!app.options_are_stale());
    app.min_frequency = 2;
    assert!(app.options_are_stale());
}

#[test]
fn changes_of_the_table_are_applied_in_order() {
    let mut app = Editor::new();
    app.replace_words(vec![word("甲"), word("乙"), word("丙")]);
    app.finish_save(path("w.tsv"), Ok(()));
    assert_eq!(app.status, "词表已保存：w.tsv");
    assert!(!app.unsaved);

    let before = app.words.clone();
    app.apply_changes(vec![], None, None);
    assert_eq!(app.words, before);
    assert!(!app.unsaved);

    app.apply_changes(
        vec![
            CellEdit {
                row: 0,
                column: Column::Word,
                text: "小鹤".to_owned(),
            },
            CellEdit {
                row: 0,
                column: Column::Frequency,
                text: "5".to_owned(),
            },
            CellEdit {
                row: 2,
                column: Column::Pinyin,
                text: "bing".to_owned(),
            },
        ],
        Some(1),
        Some((0, 1)),
    );
    assert_eq!(order(&app), ["丙", "小鹤"]);
    assert_eq!(app.words[1].code, "xnhe");
    assert_eq!(app.words[1].frequency, "5");
    assert_eq!(app.words[0].pinyin, "bing");
    assert_eq!(app.words[0].id, 2);
    assert_eq!(app.words[1].id, 0);
    assert!(app.unsaved);

    app.add_row();
    assert_eq!(app.words[2].id, 3);
    assert_eq!(app.words[2].error.as_deref(), Some("词语不能为空"));
    assert_eq!(app.take_word_id(), 4);
    assert_eq!(app.next_word_id, 5);
}

#[test]
fn exports_need_rows_without_errors() {
    let mut app = Editor::new();
    assert!(!app.prepare_export());
    assert_eq!(app.status, "当前没有可导出的词语。");

    app.replace_words(vec![word("小鹤"), word("ok")]);
    assert!(!app.prepare_export());
    assert_eq!(app.status, "仍有 1 行错误，请修正后再导出最终码表。");
    assert_eq!(app.screen, Screen::Words);
    assert!(app.only_errors);

    app.apply_changes(vec![], Some(1), None);
    app.clear_filter();
    assert!(!app.only_errors);
    app.show_output();
    assert_eq!(app.screen, Screen::Output);
    assert!(app.prepare_export());
    app.set_header(false);
    assert_eq!(app.output_text, "小鹤\txnhe\n");
    assert_eq!(app.dictionary_bytes(), "\u{feff}小鹤\txnhe\n".as_bytes());
    app.finish_export(path("d.txt"), Err("满了".to_owned()));
    assert_eq!(app.status, "满了");
    assert!(app.unsaved);
    app.finish_export(path("d.txt"), Ok(()));
    assert_eq!(app.status, "已导出 1 个词语：d.txt");
    assert!(!app.unsaved);
    app.finish_copy();
    assert_eq!(app.status, "已复制 1 个词语到剪贴板。");
}

#[test]
fn lists_and_reports_are_saved_as_utf8_with_a_mark() {
    let mut app = Editor::new();
    app.replace_words(vec![word("时"), word("是")]);
    assert_eq!(
        app.conflict_bytes(),
        "\u{feff}# 编码\t重码词\nui\t时 是\n".as_bytes()
    );
    assert_eq!(
        app.word_list_bytes(),
        "\u{feff}# 词语\t词频\t拼音（可选）\n时\t\n是\t\n".as_bytes()
    );
    app.finish_conflict_export(path("c.tsv"), Ok(()));
    assert_eq!(app.status, "重码报告已保存：c.tsv");
    app.finish_conflict_export(path("c.tsv"), Err("不行".to_owned()));
    assert_eq!(app.status, "不行");
    app.finish_save(path("w.tsv"), Err("不成".to_owned()));
    assert_eq!(app.status, "不成");
    assert!(app.unsaved);
}

#[test]
fn unsaved_rows_put_off_closing() {
    let mut app = Editor::new();
    assert!(!app.handle_close_request(true));
    app.replace_words(vec![word("小鹤")]);
    assert!(!app.handle_close_request(false));
    assert!(app.handle_close_request(true));
    assert!(app.exit_prompt);
    assert!(!app.answer_exit_prompt(ExitAnswer::Saved));
    assert!(app.exit_prompt);
    assert!(!app.answer_exit_prompt(ExitAnswer::Stay));
    assert!(!app.exit_prompt);
    assert!(app.handle_close_request(true));
    app.finish_save(path("w.tsv"), Ok(()));
    assert!(app.answer_exit_prompt(ExitAnswer::Saved));
    assert!(app.exit_confirmed && !app.exit_prompt);

    let mut other = Editor::new();
    other.replace_words(vec![word("小鹤")]);
    assert!(other.handle_close_request(true));
    assert!(other.answer_exit_prompt(ExitAnswer::Leave));
    assert!(!other.handle_close_request(true));
}

#[test]
fn dropped_files_go_by_their_names_on_every_page() {
    let mut app = Editor::new();
    assert!(app.takes_as_word_list(Some("tsv")));
    assert!(app.takes_as_word_list(Some("TsV")));
    assert!(!app.takes_as_word_list(Some("txt")));
    assert!(!app.takes_as_word_list(Some("tsvx")));
    assert!(!app.takes_as_word_list(None));
    app.screen = Screen::Words;
    assert!(app.takes_as_word_list(Some("tsv")));
    assert!(!app.takes_as_word_list(Some("txt")));
    assert!(!app.takes_as_word_list(None));
    app.toggle_theme();
    assert!(app.dark_mode);
}

#[test]
fn a_text_dropped_on_the_rows_is_opened_as_the_source() {
    let mut app = Editor::new();
    app.load_dropped_file(path("a.TSV"), Some("TSV"), read("小鹤\t3\n"));
    assert_eq!(app.screen, Screen::Words);
    assert_eq!(order(&app), ["小鹤"]);

    let rows = app.words.clone();
    app.load_dropped_file(path("b.txt"), Some("txt"), read("原文"));
    assert_eq!(app.source_text, "原文");
    assert_eq!(app.source_path, Some(path("b.txt")));
    assert_eq!(app.screen, Screen::Source);
    assert_eq!(app.words, rows);

    app.screen = Screen::Words;
    app.load_dropped_file(path("c"), None, Err("坏了".to_owned()));
    assert_eq!(app.status, "坏了");
    assert_eq!(app.words, rows);
}
