//! What the arguments of the commands ask for.

use crate::cli::{
    asks_for_help, bytes_for, command_of, encode_request, encode_scanned, extract_request,
    extract_scanned, is_option, list_encoding, summary_text, table_entries, Command, EncodeText,
    ExtractText,
};
use crate::conflict::{are_conflicts, conflicts_of, report_text, ConflictText};
use crate::decode::{chosen_text, law_plain_utf8_reads_back, law_saved_text_reads_back};
use crate::encode::{dictionary_text, encoded_entries, encoded_entry};
use crate::entry::{EncodedText, WordText};
use crate::foreign::cut_tokens;
use crate::frequency::{counted_words, is_ranking, law_ranking_exists};
use crate::laws::conflicts::law_conflicts_exist;
use crate::laws::lines::law_first_repeated_word_is_named;
use crate::laws::words::law_list_is_encoded_entry_by_entry;
use crate::text::{decimal, number_value};
use crate::word_list::{
    is_first_repeated, is_repeated, numbered_entries, word_entries, words_differ,
};
use jieba_rs::Jieba;
use vstd::prelude::*;
use vstd::utf8::encode_utf8;

verus! {

// Commands

/// The argument after the name of the program is the command; without one, or for its own word,
/// that is the help.
pub proof fn law_first_argument_is_the_command(
    program: Seq<char>,
    word: Seq<char>,
    rest: Seq<Seq<char>>,
)
    ensures
        command_of(Seq::empty()) == Ok::<Command, Seq<char>>(Command::Help),
        command_of(seq![program]) == Ok::<Command, Seq<char>>(Command::Help),
        word == "-h"@ || word == "--help"@ || word == "help"@ ==> command_of(
            seq![program, word] + rest,
        ) == Ok::<Command, Seq<char>>(Command::Help),
        word == "-V"@ || word == "--version"@ || word == "version"@ ==> command_of(
            seq![program, word] + rest,
        ) == Ok::<Command, Seq<char>>(Command::Version),
        word == "extract"@ ==> command_of(seq![program, word] + rest) == Ok::<Command, Seq<char>>(
            Command::Extract,
        ),
        word == "encode"@ ==> command_of(seq![program, word] + rest) == Ok::<Command, Seq<char>>(
            Command::Encode,
        ),
        word != "-h"@ && word != "--help"@ && word != "help"@ && word != "-V"@ && word
            != "--version"@ && word != "version"@ && word != "extract"@ && word != "encode"@
            ==> command_of(seq![program, word] + rest) == Err::<Command, Seq<char>>(
            "未知命令“"@ + word + "”。运行 flype-word --help 查看用法"@,
        ),
{
    lemma_words();
    let arguments = seq![program, word] + rest;
    assert(arguments[1] == word);
}

proof fn lemma_words()
    ensures
        "-h"@.len() == 2 && "-h"@[1] == 'h',
        "-V"@.len() == 2 && "-V"@[1] == 'V',
        "--help"@.len() == 6,
        "help"@.len() == 4,
        "--version"@.len() == 9,
        "version"@.len() == 7 && "version"@[0] == 'v',
        "extract"@.len() == 7 && "extract"@[0] == 'e',
        "encode"@.len() == 6 && "encode"@[0] == 'e',
        "--help"@[0] == '-',
{
    reveal_strlit("-h");
    reveal_strlit("-V");
    reveal_strlit("--help");
    reveal_strlit("help");
    reveal_strlit("--version");
    reveal_strlit("version");
    reveal_strlit("extract");
    reveal_strlit("encode");
}

proof fn lemma_options()
    ensures
        "-"@.len() == 1 && "-"@[0] == '-',
        "--min-frequency"@.len() == 15 && "--min-frequency"@[0] == '-',
        "--include-single"@.len() == 16 && "--include-single"@[0] == '-',
        "--no-hmm"@.len() == 8 && "--no-hmm"@[0] == '-',
        "--user-dict"@.len() == 11 && "--user-dict"@[0] == '-' && "--user-dict"@[2] == 'u',
        "--conflicts"@.len() == 11 && "--conflicts"@[0] == '-' && "--conflicts"@[2] == 'c',
        "--with-flypy-header"@.len() == 19 && "--with-flypy-header"@[0] == '-',
{
    reveal_strlit("-");
    reveal_strlit("--min-frequency");
    reveal_strlit("--include-single");
    reveal_strlit("--no-hmm");
    reveal_strlit("--user-dict");
    reveal_strlit("--conflicts");
    reveal_strlit("--with-flypy-header");
}

/// Help is asked for wherever one of its two options stands, whatever else is asked for.
pub proof fn law_help_comes_first(before: Seq<Seq<char>>, help: Seq<char>, after: Seq<Seq<char>>)
    requires
        help == "-h"@ || help == "--help"@,
    ensures
        extract_request(before + seq![help] + after) == Ok::<Option<ExtractText>, Seq<char>>(None),
        encode_request(before + seq![help] + after) == Ok::<Option<EncodeText>, Seq<char>>(None),
{
    let arguments = before + seq![help] + after;
    let i = before.len() as int;
    assert(arguments[i] == help);
    assert(asks_for_help(arguments));
}

/// Whether an argument is a path: it is empty, begins with no hyphen, or is a hyphen alone.
pub open spec fn is_path(argument: Seq<char>) -> bool {
    argument.len() == 0 || argument[0] != '-' || argument == seq!['-']
}

proof fn lemma_path(argument: Seq<char>)
    ensures
        is_option(argument) <==> !is_path(argument),
{
    reveal_strlit("-");
    assert("-"@ =~= seq!['-']);
}

// `extract`

/// What `extract` is asked to do, argument by argument: an option changes what it is for and
/// nothing else, an option with a value takes the argument after it, and a path comes after the
/// paths before it.
pub proof fn law_extract_options(
    rest: Seq<Seq<char>>,
    value: Seq<char>,
    before: ExtractText,
)
    ensures
        extract_scanned(Seq::empty(), before) == Ok::<ExtractText, Seq<char>>(before),
        extract_scanned(seq!["--include-single"@] + rest, before) == extract_scanned(
            rest,
            (ExtractText { include_single: true, ..before }),
        ),
        extract_scanned(seq!["--no-hmm"@] + rest, before) == extract_scanned(
            rest,
            (ExtractText { hmm: false, ..before }),
        ),
        extract_scanned(seq!["--user-dict"@, value] + rest, before) == extract_scanned(
            rest,
            (ExtractText { user_dict: Some(value), ..before }),
        ),
        extract_scanned(seq!["--user-dict"@], before) == Err::<ExtractText, Seq<char>>(
            "选项 "@ + "--user-dict"@ + " 缺少参数"@,
        ),
        match number_value(value) {
            Some(number) => extract_scanned(seq!["--min-frequency"@, value] + rest, before)
                == extract_scanned(rest, (ExtractText { min_frequency: number, ..before })),
            None => extract_scanned(seq!["--min-frequency"@, value] + rest, before) == Err::<
                ExtractText,
                Seq<char>,
            >("--min-frequency 必须是非负整数"@),
        },
        extract_scanned(seq!["--min-frequency"@], before) == Err::<ExtractText, Seq<char>>(
            "选项 "@ + "--min-frequency"@ + " 缺少参数"@,
        ),
        is_path(value) ==> extract_scanned(seq![value] + rest, before) == extract_scanned(
            rest,
            (ExtractText { paths: before.paths.push(value), ..before }),
        ),
        !is_path(value) && value != "--include-single"@ && value != "--no-hmm"@ && value
            != "--user-dict"@ && value != "--min-frequency"@ ==> extract_scanned(
            seq![value] + rest,
            before,
        ) == Err::<ExtractText, Seq<char>>("extract"@ + " 不支持选项“"@ + value + "”"@),
{
    lemma_options();
    lemma_path(value);
    let single = seq!["--include-single"@] + rest;
    let plain = seq!["--no-hmm"@] + rest;
    let dict = seq!["--user-dict"@, value] + rest;
    let least = seq!["--min-frequency"@, value] + rest;
    let other = seq![value] + rest;
    assert(single[0] == "--include-single"@ && single.skip(1) =~= rest);
    assert(plain[0] == "--no-hmm"@ && plain.skip(1) =~= rest);
    assert(dict[0] == "--user-dict"@ && dict[1] == value && dict.skip(2) =~= rest);
    assert(least[0] == "--min-frequency"@ && least[1] == value && least.skip(2) =~= rest);
    assert(other[0] == value && other.skip(1) =~= rest);
}

/// Arguments that follow others add to what these asked for.
pub proof fn law_extract_arguments_follow_each_other(
    a: Seq<Seq<char>>,
    b: Seq<Seq<char>>,
    before: ExtractText,
)
    requires
        extract_scanned(a, before) is Ok,
    ensures
        extract_scanned(a + b, before) == extract_scanned(b, extract_scanned(a, before)->Ok_0),
    decreases a.len(),
{
    let all = a + b;
    if a.len() == 0 {
        assert(all =~= b);
    } else {
        assert(all[0] == a[0]);
        assert(all.skip(1) =~= a.skip(1) + b);
        if a.len() >= 2 {
            assert(all[1] == a[1]);
            assert(all.skip(2) =~= a.skip(2) + b);
        }
        if a[0] == "--min-frequency"@ {
            let number = number_value(a[1])->0;
            law_extract_arguments_follow_each_other(
                a.skip(2),
                b,
                ExtractText { min_frequency: number, ..before },
            );
        } else if a[0] == "--include-single"@ {
            law_extract_arguments_follow_each_other(
                a.skip(1),
                b,
                ExtractText { include_single: true, ..before },
            );
        } else if a[0] == "--no-hmm"@ {
            law_extract_arguments_follow_each_other(
                a.skip(1),
                b,
                ExtractText { hmm: false, ..before },
            );
        } else if a[0] == "--user-dict"@ {
            law_extract_arguments_follow_each_other(
                a.skip(2),
                b,
                ExtractText { user_dict: Some(a[1]), ..before },
            );
        } else {
            law_extract_arguments_follow_each_other(
                a.skip(1),
                b,
                ExtractText { paths: before.paths.push(a[0]), ..before },
            );
        }
    }
}

/// Without options `extract` lists each word that occurs, no single characters, with new words
/// found; a request is complete with two paths, no more and no less.
pub proof fn law_extract_needs_two_paths(arguments: Seq<Seq<char>>)
    requires
        forall|i: int|
            0 <= i < arguments.len() ==> #[trigger] arguments[i] != "-h"@ && arguments[i]
                != "--help"@,
    ensures
        match extract_scanned(
            arguments,
            (ExtractText {
                paths: Seq::empty(),
                min_frequency: 1,
                include_single: false,
                hmm: true,
                user_dict: None,
            }),
        ) {
            Ok(request) => extract_request(arguments) == if request.paths.len() == 2 {
                Ok::<Option<ExtractText>, Seq<char>>(Some(request))
            } else {
                Err(
                    "extract"@ + " 需要两个路径参数；运行 flype-word "@ + "extract"@
                        + " --help 查看示例"@,
                )
            },
            Err(message) => extract_request(arguments) == Err::<Option<ExtractText>, Seq<char>>(
                message,
            ),
        },
{
}

/// The table that `extract` makes is the ranking of the words of the text that are asked for.
pub proof fn law_table_is_the_ranking(jieba: &Jieba, text: Seq<char>, request: ExtractText)
    requires
        counted_words(cut_tokens(jieba, text, request.hmm), request.include_single).len()
            <= u64::MAX,
    ensures
        is_ranking(
            table_entries(jieba, text, request),
            counted_words(cut_tokens(jieba, text, request.hmm), request.include_single),
            request.min_frequency,
        ),
{
    let words = counted_words(cut_tokens(jieba, text, request.hmm), request.include_single);
    law_ranking_exists(words, request.min_frequency);
}

// `encode`

/// What `encode` is asked to do, argument by argument: an option changes what it is for and nothing
/// else, an option with a value takes the argument after it, and a path comes after the paths
/// before it.
pub proof fn law_encode_options(rest: Seq<Seq<char>>, value: Seq<char>, before: EncodeText)
    ensures
        encode_scanned(Seq::empty(), before) == Ok::<EncodeText, Seq<char>>(before),
        encode_scanned(seq!["--with-flypy-header"@] + rest, before) == encode_scanned(
            rest,
            (EncodeText { with_flypy_header: true, ..before }),
        ),
        encode_scanned(seq!["--conflicts"@, value] + rest, before) == encode_scanned(
            rest,
            (EncodeText { conflicts: Some(value), ..before }),
        ),
        encode_scanned(seq!["--conflicts"@], before) == Err::<EncodeText, Seq<char>>(
            "选项 "@ + "--conflicts"@ + " 缺少参数"@,
        ),
        is_path(value) ==> encode_scanned(seq![value] + rest, before) == encode_scanned(
            rest,
            (EncodeText { paths: before.paths.push(value), ..before }),
        ),
        !is_path(value) && value != "--with-flypy-header"@ && value != "--conflicts"@
            ==> encode_scanned(seq![value] + rest, before) == Err::<EncodeText, Seq<char>>(
            "encode"@ + " 不支持选项“"@ + value + "”"@,
        ),
{
    lemma_options();
    lemma_path(value);
    let header = seq!["--with-flypy-header"@] + rest;
    let report = seq!["--conflicts"@, value] + rest;
    let other = seq![value] + rest;
    assert(header[0] == "--with-flypy-header"@ && header.skip(1) =~= rest);
    assert(report[0] == "--conflicts"@ && report[1] == value && report.skip(2) =~= rest);
    assert(other[0] == value && other.skip(1) =~= rest);
}

/// Arguments that follow others add to what these asked for.
pub proof fn law_encode_arguments_follow_each_other(
    a: Seq<Seq<char>>,
    b: Seq<Seq<char>>,
    before: EncodeText,
)
    requires
        encode_scanned(a, before) is Ok,
    ensures
        encode_scanned(a + b, before) == encode_scanned(b, encode_scanned(a, before)->Ok_0),
    decreases a.len(),
{
    let all = a + b;
    if a.len() == 0 {
        assert(all =~= b);
    } else {
        assert(all[0] == a[0]);
        assert(all.skip(1) =~= a.skip(1) + b);
        if a.len() >= 2 {
            assert(all[1] == a[1]);
            assert(all.skip(2) =~= a.skip(2) + b);
        }
        if a[0] == "--conflicts"@ {
            law_encode_arguments_follow_each_other(
                a.skip(2),
                b,
                EncodeText { conflicts: Some(a[1]), ..before },
            );
        } else if a[0] == "--with-flypy-header"@ {
            law_encode_arguments_follow_each_other(
                a.skip(1),
                b,
                EncodeText { with_flypy_header: true, ..before },
            );
        } else {
            law_encode_arguments_follow_each_other(
                a.skip(1),
                b,
                EncodeText { paths: before.paths.push(a[0]), ..before },
            );
        }
    }
}

/// Without options `encode` writes no settings and no report; a request is complete with two paths,
/// no more and no less.
pub proof fn law_encode_needs_two_paths(arguments: Seq<Seq<char>>)
    requires
        forall|i: int|
            0 <= i < arguments.len() ==> #[trigger] arguments[i] != "-h"@ && arguments[i]
                != "--help"@,
    ensures
        match encode_scanned(
            arguments,
            (EncodeText { paths: Seq::empty(), conflicts: None, with_flypy_header: false }),
        ) {
            Ok(request) => encode_request(arguments) == if request.paths.len() == 2 {
                Ok::<Option<EncodeText>, Seq<char>>(Some(request))
            } else {
                Err(
                    "encode"@ + " 需要两个路径参数；运行 flype-word "@ + "encode"@
                        + " --help 查看示例"@,
                )
            },
            Err(message) => encode_request(arguments) == Err::<Option<EncodeText>, Seq<char>>(
                message,
            ),
        },
{
}

/// A word list gives a dictionary and a report exactly if no word occurs twice and each entry can be
/// encoded: the dictionary of all entries, the report of all the codes that they share, and the
/// numbers of both. Otherwise it gives neither, and the first word that occurs again is named, or
/// else the first entry that cannot be encoded.
pub proof fn law_word_list_is_encoded_or_refused(input: Seq<char>, with_flypy_header: bool)
    ensures
        match list_encoding(input, with_flypy_header) {
            Ok(encoding) => {
                &&& numbered_entries(input).map_values(
                    |item: (nat, WordText)| item.1.word,
                ).no_duplicates()
                &&& exists|list: Seq<EncodedText>, conflicts: Seq<ConflictText>|
                    {
                        &&& #[trigger] are_conflicts(conflicts, list)
                        &&& list.len() == word_entries(input).len()
                        &&& forall|i: int|
                            0 <= i < list.len() ==> encoded_entry(
                                #[trigger] word_entries(input)[i],
                            ) == Ok::<EncodedText, Seq<char>>(list[i])
                        &&& encoding.dictionary == dictionary_text(list, with_flypy_header)
                        &&& encoding.report == report_text(conflicts)
                        &&& encoding.summary == "已编码 "@ + decimal(list.len())
                            + " 个词语，发现 "@ + decimal(conflicts.len()) + " 组重码。"@
                    }
            },
            Err(message) => {
                ||| exists|i: int|
                    #[trigger] is_first_repeated(numbered_entries(input), i) && message == "第 "@
                        + decimal(numbered_entries(input)[i].0) + " 行出现重复词语“"@
                        + numbered_entries(input)[i].1.word + "”"@
                ||| words_differ(numbered_entries(input)) && exists|i: int|
                    {
                        &&& 0 <= i < word_entries(input).len()
                        &&& encoded_entry(#[trigger] word_entries(input)[i]) == Err::<
                            EncodedText,
                            Seq<char>,
                        >(message)
                        &&& forall|j: int|
                            0 <= j < i ==> encoded_entry(#[trigger] word_entries(input)[j]) is Ok
                    }
            },
        },
{
    let all = numbered_entries(input);
    let entries = word_entries(input);
    law_first_repeated_word_is_named(all, 0);
    law_list_is_encoded_entry_by_entry(entries);
    if words_differ(all) {
        if let Ok(list) = encoded_entries(entries) {
            law_conflicts_exist(list);
            assert(are_conflicts(conflicts_of(list), list));
        }
    } else {
        let i = lemma_first_repeated_exists(all);
        assert(is_first_repeated(all, i));
    }
}

/// The first entry whose word occurs before it, where words occur twice.
proof fn lemma_first_repeated_exists(entries: Seq<(nat, WordText)>) -> (i: int)
    requires
        !words_differ(entries),
    ensures
        is_first_repeated(entries, i),
    decreases entries.len(),
{
    let shorter = entries.drop_last();
    if !words_differ(shorter) {
        let i = lemma_first_repeated_exists(shorter);
        let j = choose|j: int| 0 <= j < i && (#[trigger] shorter[j]).1.word == shorter[i].1.word;
        assert(entries[j].1.word == entries[i].1.word);
        assert(is_repeated(entries, i));
        assert forall|k: int| 0 <= k < i implies !#[trigger] is_repeated(entries, k) by {
            if is_repeated(entries, k) {
                let m = choose|m: int|
                    0 <= m < k && (#[trigger] entries[m]).1.word == entries[k].1.word;
                assert(shorter[m].1.word == shorter[k].1.word);
                assert(is_repeated(shorter, k));
            }
        }
        i
    } else {
        let (i, j) = choose|i: int, j: int|
            0 <= j < i < entries.len() && (#[trigger] entries[j]).1.word == (
            #[trigger] entries[i]).1.word;
        let last = entries.len() - 1;
        if i < last {
            assert(shorter[i].1.word == shorter[j].1.word);
        }
        assert(is_repeated(entries, last));
        assert forall|k: int| 0 <= k < last implies !#[trigger] is_repeated(entries, k) by {
            if is_repeated(entries, k) {
                let m = choose|m: int|
                    0 <= m < k && (#[trigger] entries[m]).1.word == entries[k].1.word;
                assert(shorter[m].1.word == shorter[k].1.word);
            }
        }
        last
    }
}

/// What is written to a file or to the standard output is the text in UTF-8, with a byte order mark
/// in a file alone, and is read back as the text.
pub proof fn law_output_reads_back(
    path: Seq<char>,
    text: Seq<char>,
    utf_16le: (Seq<char>, bool),
    utf_16be: (Seq<char>, bool),
    gb18030: Option<Seq<char>>,
    big5: Option<Seq<char>>,
)
    ensures
        path == seq!['-'] ==> bytes_for(path, text) == encode_utf8(text),
        path != seq!['-'] ==> bytes_for(path, text) == seq![0xEFu8, 0xBB, 0xBF] + encode_utf8(text),
        path != seq!['-'] || text.len() == 0 || text[0] != '\u{feff}' ==> chosen_text(
            bytes_for(path, text),
            utf_16le,
            utf_16be,
            gb18030,
            big5,
        ) == Some((text, "UTF-8"@)),
{
    reveal_strlit("-");
    assert("-"@ =~= seq!['-']);
    law_saved_text_reads_back(text, utf_16le, utf_16be, gb18030, big5);
    if text.len() == 0 || text[0] != '\u{feff}' {
        law_plain_utf8_reads_back(text, utf_16le, utf_16be, gb18030, big5);
    }
}

/// The summary of a dictionary tells how many words it has and how many codes are shared.
pub proof fn law_summary_tells_both_numbers(words: nat, conflicts: nat)
    ensures
        summary_text(words, conflicts) == "已编码 "@ + decimal(words) + " 个词语，发现 "@ + decimal(
            conflicts,
        ) + " 组重码。"@,
{
}

} // verus!
