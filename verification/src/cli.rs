//! The command line: what the arguments ask for, and what the commands make of their input.

use crate::conflict::{conflicts_of, find_conflicts, render_conflicts, report_text, Conflict};
use crate::decode::{encode_file, file_bytes};
use crate::encode::{dictionary_text, encode_entries, encoded_entries, render_encoded};
use crate::entry::{EncodedEntry, EncodedText, FrequencyEntry, FrequencyText, WordEntry};
use crate::error::FlypeError;
use crate::foreign::cut_tokens;
use crate::frequency::{
    counted_words, extract_frequencies, frequency_text, ranking_of, render_frequency_tsv,
};
use crate::text::{
    decimal, number_value, optional_text, parse_number, push_decimal, same_text, to_chars, views,
};
use crate::word_list::{
    is_first_repeated, is_repeated, numbered_entries, parse_word_list, repeated_message,
    word_entries, words_differ,
};
use jieba_rs::Jieba;
use vstd::prelude::*;
use vstd::utf8::encode_utf8;

verus! {

// Commands

/// What the first argument asks for.
#[derive(Clone, Copy, Debug, PartialEq, Eq)]
pub enum Command {
    Help,
    Version,
    Extract,
    Encode,
}

/// What is said of a command that there is not.
pub open spec fn unknown_command_message(command: Seq<char>) -> Seq<char> {
    "未知命令“"@ + command + "”。运行 flype-word --help 查看用法"@
}

/// The command of a list of arguments, of which the first is the name of the program.
pub open spec fn command_of(arguments: Seq<Seq<char>>) -> Result<Command, Seq<char>> {
    if arguments.len() < 2 {
        Ok(Command::Help)
    } else {
        let word = arguments[1];
        if word == "-h"@ || word == "--help"@ || word == "help"@ {
            Ok(Command::Help)
        } else if word == "-V"@ || word == "--version"@ || word == "version"@ {
            Ok(Command::Version)
        } else if word == "extract"@ {
            Ok(Command::Extract)
        } else if word == "encode"@ {
            Ok(Command::Encode)
        } else {
            Err(unknown_command_message(word))
        }
    }
}

/// A result with its error as a text.
pub open spec fn command_result(result: Result<Command, FlypeError>) -> Result<
    Command,
    Seq<char>,
> {
    match result {
        Ok(command) => Ok(command),
        Err(error) => Err(error@),
    }
}

/// Reads the command.
pub fn read_command(arguments: &[String]) -> (command: Result<Command, FlypeError>)
    ensures
        command_result(command) == command_of(views(arguments@)),
{
    if arguments.len() < 2 {
        return Ok(Command::Help);
    }
    let word: &str = arguments[1].as_str();
    if same_text(word, "-h") || same_text(word, "--help") || same_text(word, "help") {
        Ok(Command::Help)
    } else if same_text(word, "-V") || same_text(word, "--version") || same_text(word, "version") {
        Ok(Command::Version)
    } else if same_text(word, "extract") {
        Ok(Command::Extract)
    } else if same_text(word, "encode") {
        Ok(Command::Encode)
    } else {
        let mut message: String = "未知命令“".to_owned();
        message.append(word);
        message.append("”。运行 flype-word --help 查看用法");
        Err(FlypeError::new(message))
    }
}

// Options

/// Whether the arguments of a command ask for its help.
pub open spec fn asks_for_help(arguments: Seq<Seq<char>>) -> bool {
    exists|i: int|
        0 <= i < arguments.len() && (#[trigger] arguments[i] == "-h"@ || arguments[i]
            == "--help"@)
}

fn wants_help(arguments: &[String]) -> (wanted: bool)
    ensures
        wanted == asks_for_help(views(arguments@)),
{
    let ghost all = views(arguments@);
    for i in 0..arguments.len()
        invariant
            all == views(arguments@),
            forall|j: int| 0 <= j < i ==> #[trigger] all[j] != "-h"@ && all[j] != "--help"@,
    {
        if same_text(arguments[i].as_str(), "-h") || same_text(arguments[i].as_str(), "--help") {
            assert(all[i as int] == arguments@[i as int]@);
            return true;
        }
        assert(all[i as int] == arguments@[i as int]@);
    }
    false
}

/// Whether an argument has the form of an option.
pub open spec fn is_option(argument: Seq<char>) -> bool {
    argument.len() > 0 && argument[0] == '-' && argument != "-"@
}

fn looks_like_option(argument: &str) -> (option: bool)
    ensures
        option == is_option(argument@),
{
    argument.unicode_len() > 0 && argument.get_char(0) == '-' && !same_text(argument, "-")
}

/// What is said of an option without its value.
pub open spec fn missing_value_message(option: Seq<char>) -> Seq<char> {
    "选项 "@ + option + " 缺少参数"@
}

/// What is said of an option that a command does not have.
pub open spec fn unsupported_message(command: Seq<char>, option: Seq<char>) -> Seq<char> {
    command + " 不支持选项“"@ + option + "”"@
}

/// What is said of a command that was not given two paths.
pub open spec fn paths_message(command: Seq<char>) -> Seq<char> {
    command + " 需要两个路径参数；运行 flype-word "@ + command + " --help 查看示例"@
}

fn missing_value(option: &str) -> (error: FlypeError)
    ensures
        error@ == missing_value_message(option@),
{
    let mut message: String = "选项 ".to_owned();
    message.append(option);
    message.append(" 缺少参数");
    FlypeError::new(message)
}

fn unsupported(command: &str, option: &str) -> (error: FlypeError)
    ensures
        error@ == unsupported_message(command@, option@),
{
    let mut message: String = command.to_owned();
    message.append(" 不支持选项“");
    message.append(option);
    message.append("”");
    FlypeError::new(message)
}

fn wrong_paths(command: &str) -> (error: FlypeError)
    ensures
        error@ == paths_message(command@),
{
    let mut message: String = command.to_owned();
    message.append(" 需要两个路径参数；运行 flype-word ");
    message.append(command);
    message.append(" --help 查看示例");
    FlypeError::new(message)
}

/// What `extract` is asked to do.
#[derive(Debug, PartialEq, Eq)]
pub struct ExtractArguments {
    /// The paths, in order; of a complete request, that of the text and that of the table.
    pub paths: Vec<String>,
    pub min_frequency: u64,
    pub include_single: bool,
    pub hmm: bool,
    pub user_dict: Option<String>,
}

/// What `ExtractArguments` say.
pub struct ExtractText {
    pub paths: Seq<Seq<char>>,
    pub min_frequency: u64,
    pub include_single: bool,
    pub hmm: bool,
    pub user_dict: Option<Seq<char>>,
}

impl View for ExtractArguments {
    type V = ExtractText;

    open spec fn view(&self) -> ExtractText {
        ExtractText {
            paths: views(self.paths@),
            min_frequency: self.min_frequency,
            include_single: self.include_single,
            hmm: self.hmm,
            user_dict: optional_text(self.user_dict),
        }
    }
}

/// What `extract` does if nothing else is asked for.
pub open spec fn extract_defaults() -> ExtractText {
    ExtractText {
        paths: Seq::empty(),
        min_frequency: 1,
        include_single: false,
        hmm: true,
        user_dict: None,
    }
}

/// What `extract` is asked to do by arguments that follow others.
pub open spec fn extract_scanned(arguments: Seq<Seq<char>>, before: ExtractText) -> Result<
    ExtractText,
    Seq<char>,
>
    decreases arguments.len(),
{
    if arguments.len() == 0 {
        Ok(before)
    } else if arguments[0] == "--min-frequency"@ {
        if arguments.len() < 2 {
            Err(missing_value_message("--min-frequency"@))
        } else {
            match number_value(arguments[1]) {
                Some(number) => extract_scanned(
                    arguments.skip(2),
                    ExtractText { min_frequency: number, ..before },
                ),
                None => Err("--min-frequency 必须是非负整数"@),
            }
        }
    } else if arguments[0] == "--include-single"@ {
        extract_scanned(arguments.skip(1), ExtractText { include_single: true, ..before })
    } else if arguments[0] == "--no-hmm"@ {
        extract_scanned(arguments.skip(1), ExtractText { hmm: false, ..before })
    } else if arguments[0] == "--user-dict"@ {
        if arguments.len() < 2 {
            Err(missing_value_message("--user-dict"@))
        } else {
            extract_scanned(
                arguments.skip(2),
                ExtractText { user_dict: Some(arguments[1]), ..before },
            )
        }
    } else if is_option(arguments[0]) {
        Err(unsupported_message("extract"@, arguments[0]))
    } else {
        extract_scanned(
            arguments.skip(1),
            ExtractText { paths: before.paths.push(arguments[0]), ..before },
        )
    }
}

/// What the arguments of `extract` ask for; `None` is its help.
pub open spec fn extract_request(arguments: Seq<Seq<char>>) -> Result<
    Option<ExtractText>,
    Seq<char>,
> {
    if asks_for_help(arguments) {
        Ok(None)
    } else {
        match extract_scanned(arguments, extract_defaults()) {
            Ok(request) => if request.paths.len() == 2 {
                Ok(Some(request))
            } else {
                Err(paths_message("extract"@))
            },
            Err(message) => Err(message),
        }
    }
}

/// A request that was read, with both sides as what they say.
pub open spec fn extract_result(
    result: Result<Option<ExtractArguments>, FlypeError>,
) -> Result<Option<ExtractText>, Seq<char>> {
    match result {
        Ok(Some(request)) => Ok(Some(request@)),
        Ok(None) => Ok(None),
        Err(error) => Err(error@),
    }
}

/// Reads the arguments of `extract`, those after the command; `None` is its help.
pub fn read_extract_arguments(arguments: &[String]) -> (request: Result<
    Option<ExtractArguments>,
    FlypeError,
>)
    ensures
        extract_result(request) == extract_request(views(arguments@)),
{
    if wants_help(arguments) {
        return Ok(None);
    }
    let ghost all = views(arguments@);
    let mut request: ExtractArguments = ExtractArguments {
        paths: Vec::new(),
        min_frequency: 1,
        include_single: false,
        hmm: true,
        user_dict: None,
    };
    let mut index: usize = 0;
    assert(request@.paths =~= Seq::empty());
    assert(all.skip(0) =~= all);
    while index < arguments.len()
        invariant
            all == views(arguments@),
            index <= arguments.len(),
            !asks_for_help(all),
            extract_scanned(all.skip(index as int), request@) == extract_scanned(
                all,
                extract_defaults(),
            ),
        decreases arguments.len() - index,
    {
        let ghost rest = all.skip(index as int);
        let argument: &str = arguments[index].as_str();
        assert(rest[0] == argument@);
        assert(rest.skip(1) =~= all.skip(index + 1));
        assert(rest.len() >= 2 ==> rest.skip(2) =~= all.skip(index + 2));
        assert(rest.len() >= 2 ==> rest[1] == arguments@[index + 1]@);
        if same_text(argument, "--min-frequency") {
            if arguments.len() - index < 2 {
                return Err(missing_value("--min-frequency"));
            }
            let digits: Vec<char> = to_chars(arguments[index + 1].as_str());
            match parse_number(&digits) {
                Some(number) => {
                    request.min_frequency = number;
                },
                None => {
                    return Err(FlypeError::new("--min-frequency 必须是非负整数".to_owned()));
                },
            }
            index += 2;
        } else if same_text(argument, "--include-single") {
            request.include_single = true;
            index += 1;
        } else if same_text(argument, "--no-hmm") {
            request.hmm = false;
            index += 1;
        } else if same_text(argument, "--user-dict") {
            if arguments.len() - index < 2 {
                return Err(missing_value("--user-dict"));
            }
            request.user_dict = Some(arguments[index + 1].clone());
            index += 2;
        } else if looks_like_option(argument) {
            return Err(unsupported("extract", argument));
        } else {
            let ghost before = request@;
            request.paths.push(arguments[index].clone());
            assert(request@.paths =~= before.paths.push(argument@));
            index += 1;
        }
    }
    assert(all.skip(index as int) =~= Seq::empty());
    assert(request@.paths.len() == request.paths@.len());
    if request.paths.len() != 2 {
        return Err(wrong_paths("extract"));
    }
    Ok(Some(request))
}

/// What `encode` is asked to do.
#[derive(Debug, PartialEq, Eq)]
pub struct EncodeArguments {
    /// The paths, in order; of a complete request, that of the list and that of the dictionary.
    pub paths: Vec<String>,
    pub conflicts: Option<String>,
    pub with_flypy_header: bool,
}

/// What `EncodeArguments` say.
pub struct EncodeText {
    pub paths: Seq<Seq<char>>,
    pub conflicts: Option<Seq<char>>,
    pub with_flypy_header: bool,
}

impl View for EncodeArguments {
    type V = EncodeText;

    open spec fn view(&self) -> EncodeText {
        EncodeText {
            paths: views(self.paths@),
            conflicts: optional_text(self.conflicts),
            with_flypy_header: self.with_flypy_header,
        }
    }
}

/// What `encode` does if nothing else is asked for.
pub open spec fn encode_defaults() -> EncodeText {
    EncodeText { paths: Seq::empty(), conflicts: None, with_flypy_header: false }
}

/// What `encode` is asked to do by arguments that follow others.
pub open spec fn encode_scanned(arguments: Seq<Seq<char>>, before: EncodeText) -> Result<
    EncodeText,
    Seq<char>,
>
    decreases arguments.len(),
{
    if arguments.len() == 0 {
        Ok(before)
    } else if arguments[0] == "--conflicts"@ {
        if arguments.len() < 2 {
            Err(missing_value_message("--conflicts"@))
        } else {
            encode_scanned(
                arguments.skip(2),
                EncodeText { conflicts: Some(arguments[1]), ..before },
            )
        }
    } else if arguments[0] == "--with-flypy-header"@ {
        encode_scanned(arguments.skip(1), EncodeText { with_flypy_header: true, ..before })
    } else if is_option(arguments[0]) {
        Err(unsupported_message("encode"@, arguments[0]))
    } else {
        encode_scanned(
            arguments.skip(1),
            EncodeText { paths: before.paths.push(arguments[0]), ..before },
        )
    }
}

/// What the arguments of `encode` ask for; `None` is its help.
pub open spec fn encode_request(arguments: Seq<Seq<char>>) -> Result<
    Option<EncodeText>,
    Seq<char>,
> {
    if asks_for_help(arguments) {
        Ok(None)
    } else {
        match encode_scanned(arguments, encode_defaults()) {
            Ok(request) => if request.paths.len() == 2 {
                Ok(Some(request))
            } else {
                Err(paths_message("encode"@))
            },
            Err(message) => Err(message),
        }
    }
}

/// A request that was read, with both sides as what they say.
pub open spec fn encode_result(result: Result<Option<EncodeArguments>, FlypeError>) -> Result<
    Option<EncodeText>,
    Seq<char>,
> {
    match result {
        Ok(Some(request)) => Ok(Some(request@)),
        Ok(None) => Ok(None),
        Err(error) => Err(error@),
    }
}

/// Reads the arguments of `encode`, those after the command; `None` is its help.
pub fn read_encode_arguments(arguments: &[String]) -> (request: Result<
    Option<EncodeArguments>,
    FlypeError,
>)
    ensures
        encode_result(request) == encode_request(views(arguments@)),
{
    if wants_help(arguments) {
        return Ok(None);
    }
    let ghost all = views(arguments@);
    let mut request: EncodeArguments = EncodeArguments {
        paths: Vec::new(),
        conflicts: None,
        with_flypy_header: false,
    };
    let mut index: usize = 0;
    assert(request@.paths =~= Seq::empty());
    assert(all.skip(0) =~= all);
    while index < arguments.len()
        invariant
            all == views(arguments@),
            index <= arguments.len(),
            !asks_for_help(all),
            encode_scanned(all.skip(index as int), request@) == encode_scanned(
                all,
                encode_defaults(),
            ),
        decreases arguments.len() - index,
    {
        let ghost rest = all.skip(index as int);
        let argument: &str = arguments[index].as_str();
        assert(rest[0] == argument@);
        assert(rest.skip(1) =~= all.skip(index + 1));
        assert(rest.len() >= 2 ==> rest.skip(2) =~= all.skip(index + 2));
        assert(rest.len() >= 2 ==> rest[1] == arguments@[index + 1]@);
        if same_text(argument, "--conflicts") {
            if arguments.len() - index < 2 {
                return Err(missing_value("--conflicts"));
            }
            request.conflicts = Some(arguments[index + 1].clone());
            index += 2;
        } else if same_text(argument, "--with-flypy-header") {
            request.with_flypy_header = true;
            index += 1;
        } else if looks_like_option(argument) {
            return Err(unsupported("encode", argument));
        } else {
            let ghost before = request@;
            request.paths.push(arguments[index].clone());
            assert(request@.paths =~= before.paths.push(argument@));
            index += 1;
        }
    }
    assert(all.skip(index as int) =~= Seq::empty());
    assert(request@.paths.len() == request.paths@.len());
    if request.paths.len() != 2 {
        return Err(wrong_paths("encode"));
    }
    Ok(Some(request))
}

// The work of the commands

/// Whether a path stands for the standard input or output.
pub fn is_standard_stream(path: &str) -> (standard: bool)
    ensures
        standard == (path@ == "-"@),
{
    same_text(path, "-")
}

/// The bytes of a text that is written to a path.
pub open spec fn bytes_for(path: Seq<char>, text: Seq<char>) -> Seq<u8> {
    if path == "-"@ {
        encode_utf8(text)
    } else {
        file_bytes(text)
    }
}

/// The bytes that are written to a path: a file begins with a byte order mark, the standard
/// output does not.
pub fn output_bytes(path: &str, text: &str) -> (bytes: Vec<u8>)
    ensures
        bytes@ == (if path@ == "-"@ {
            encode_utf8(text@)
        } else {
            file_bytes(text@)
        }),
        bytes@ == bytes_for(path@, text@),
{
    if is_standard_stream(path) {
        text.as_bytes_vec()
    } else {
        encode_file(text)
    }
}

/// The words of a text that `extract` is asked for, with how often they occur.
pub open spec fn table_entries(jieba: &Jieba, text: Seq<char>, request: ExtractText) -> Seq<
    FrequencyText,
> {
    ranking_of(
        counted_words(cut_tokens(jieba, text, request.hmm), request.include_single),
        request.min_frequency,
    )
}

/// What `extract` makes of a text: the table of its words, and what is said of it.
pub fn extract_table(jieba: &Jieba, text: &str, request: &ExtractArguments) -> (table: (
    String,
    String,
))
    requires
        encode_utf8(text@).len() <= u32::MAX,
    ensures
        table.0@ == frequency_text(table_entries(jieba, text@, request@)),
        table.1@ == "已导出 "@ + decimal(table_entries(jieba, text@, request@).len())
            + " 个词语。"@,
{
    let entries: Vec<FrequencyEntry> = extract_frequencies(
        jieba,
        text,
        request.hmm,
        request.min_frequency,
        request.include_single,
    );
    let mut summary: String = "已导出 ".to_owned();
    push_decimal(&mut summary, entries.len() as u64);
    summary.append(" 个词语。");
    assert(views(entries@).len() == entries@.len());
    (render_frequency_tsv(&entries), summary)
}

/// What `encode` makes of a word list.
#[derive(Debug, PartialEq, Eq)]
pub struct Encoding {
    pub dictionary: String,
    pub report: String,
    pub summary: String,
}

/// What is said of a dictionary.
pub open spec fn summary_text(words: nat, conflicts: nat) -> Seq<char> {
    "已编码 "@ + decimal(words) + " 个词语，发现 "@ + decimal(conflicts) + " 组重码。"@
}

/// What an `Encoding` says.
pub struct EncodingText {
    pub dictionary: Seq<char>,
    pub report: Seq<char>,
    pub summary: Seq<char>,
}

/// What `encode` makes of a word list, or what is wrong with the list.
pub open spec fn list_encoding(input: Seq<char>, with_flypy_header: bool) -> Result<
    EncodingText,
    Seq<char>,
> {
    let entries = numbered_entries(input);
    if words_differ(entries) {
        match encoded_entries(word_entries(input)) {
            Ok(encoded) => Ok(
                EncodingText {
                    dictionary: dictionary_text(encoded, with_flypy_header),
                    report: report_text(conflicts_of(encoded)),
                    summary: summary_text(encoded.len(), conflicts_of(encoded).len()),
                },
            ),
            Err(message) => Err(message),
        }
    } else {
        let i = choose|i: int| is_first_repeated(entries, i);
        Err(repeated_message(entries[i].0, entries[i].1.word))
    }
}

/// What was made of a word list, with both sides as what they say.
pub open spec fn encoding_result(result: Result<Encoding, FlypeError>) -> Result<
    EncodingText,
    Seq<char>,
> {
    match result {
        Ok(encoding) => Ok(
            EncodingText {
                dictionary: encoding.dictionary@,
                report: encoding.report@,
                summary: encoding.summary@,
            },
        ),
        Err(error) => Err(error@),
    }
}

/// Makes the dictionary and the report of the codes that are shared. A list that has an error
/// anywhere gives neither.
pub fn encode_word_list(input: &str, with_flypy_header: bool) -> (encoding: Result<
    Encoding,
    FlypeError,
>)
    ensures
        match encoding {
            Ok(encoding) => words_differ(numbered_entries(input@)) && (encoded_entries(
                word_entries(input@),
            ) matches Ok(encoded) && encoding.dictionary@ == dictionary_text(
                encoded,
                with_flypy_header,
            ) && encoding.report@ == report_text(conflicts_of(encoded)) && encoding.summary@
                == summary_text(encoded.len(), conflicts_of(encoded).len())),
            Err(error) => if words_differ(numbered_entries(input@)) {
                encoded_entries(word_entries(input@)) == Err::<Seq<EncodedText>, Seq<char>>(error@)
            } else {
                exists|i: int| #[trigger]
                    is_first_repeated(numbered_entries(input@), i) && error@ == repeated_message(
                        numbered_entries(input@)[i].0,
                        numbered_entries(input@)[i].1.word,
                    )
            },
        },
        encoding_result(encoding) == list_encoding(input@, with_flypy_header),
{
    let entries: Vec<WordEntry> = match parse_word_list(input) {
        Ok(entries) => entries,
        Err(error) => {
            proof {
                let all = numbered_entries(input@);
                let i = choose|i: int| #[trigger]
                    is_first_repeated(all, i) && error@ == repeated_message(
                        all[i].0,
                        all[i].1.word,
                    );
                let j = choose|j: int| 0 <= j < i && (#[trigger] all[j]).1.word == all[i].1.word;
                assert(!words_differ(all));
                let k = choose|k: int| is_first_repeated(all, k);
                assert(is_first_repeated(all, k));
                assert(k == i) by {
                    if k < i {
                        assert(!is_repeated(all, k));
                    } else if i < k {
                        assert(!is_repeated(all, i));
                    }
                }
            }
            return Err(error);
        },
    };
    let encoded: Vec<EncodedEntry> = match encode_entries(&entries) {
        Ok(encoded) => encoded,
        Err(error) => {
            return Err(error);
        },
    };
    let conflicts: Vec<Conflict> = find_conflicts(&encoded);
    let mut summary: String = "已编码 ".to_owned();
    push_decimal(&mut summary, encoded.len() as u64);
    summary.append(" 个词语，发现 ");
    push_decimal(&mut summary, conflicts.len() as u64);
    summary.append(" 组重码。");
    assert(views(encoded@).len() == encoded@.len());
    assert(views(conflicts@).len() == conflicts@.len());
    Ok(
        Encoding {
            dictionary: render_encoded(&encoded, with_flypy_header),
            report: render_conflicts(&conflicts),
            summary,
        },
    )
}

} // verus!
