//! The state of the dictionary editor and what each action does to it. Files, windows and the
//! segmenter's thread are handled outside; what they give back comes in as plain values.

use crate::conflict::{
    conflicts_of, find_conflicts, report_text, render_conflicts, Conflict, ConflictText,
};
use crate::decode::{decode_text, decoded_text, encode_file, file_bytes};
use crate::editable::{
    fresh_row, render_editable_words, row_of_entry, rows_text, EditableWord, RowText,
};
use crate::encode::{dictionary_text, render_encoded};
use crate::entry::{EncodedEntry, EncodedText, FrequencyEntry, FrequencyText, WordEntry, WordText};
use crate::foreign::{fits_decoder, lower_char, lower_plain};
use crate::rows::{
    check_rows, checked_rows, count_errors, error_total, move_item, moved, valid_entries,
};
use crate::text::{decimal, push_decimal, same_text, to_chars, trim_text, trimmed, views};
use crate::word_list::{numbered_entries, parse_word_list_lenient, word_entries};
use vstd::prelude::*;

verus! {

// The state

/// The pages of the editor.
#[derive(Clone, Copy, Debug, PartialEq, Eq, Structural)]
pub enum Screen {
    Source,
    Words,
    Output,
}

/// A file: what tells it from others, and how its path is shown.
#[derive(Debug, PartialEq, Eq)]
pub struct FilePath {
    pub key: Vec<u8>,
    pub text: String,
}

/// What a `FilePath` says.
#[verifier::ext_equal]
pub struct PathText {
    pub key: Seq<u8>,
    pub text: Seq<char>,
}

impl View for FilePath {
    type V = PathText;

    open spec fn view(&self) -> PathText {
        PathText { key: self.key@, text: self.text@ }
    }
}

impl Clone for FilePath {
    fn clone(&self) -> (copy: Self)
        ensures
            copy@ == self@,
    {
        FilePath { key: vstd::slice::slice_to_vec(&self.key), text: self.text.clone() }
    }
}

/// A file that may be missing.
pub open spec fn path_text(path: Option<FilePath>) -> Option<PathText> {
    match path {
        Some(path) => Some(path@),
        None => None,
    }
}

/// Whether two files are the same, or both missing.
pub open spec fn same_path(a: Option<PathText>, b: Option<PathText>) -> bool {
    match (a, b) {
        (Some(a), Some(b)) => a.key == b.key,
        (None, None) => true,
        _ => false,
    }
}

/// What a text is segmented with.
#[derive(Debug, PartialEq, Eq)]
pub struct SegmentOptions {
    pub min_frequency: u64,
    pub include_single_chars: bool,
    pub hmm: bool,
    pub user_dict: Option<FilePath>,
}

/// What `SegmentOptions` say.
#[verifier::ext_equal]
pub struct OptionsText {
    pub min_frequency: u64,
    pub include_single_chars: bool,
    pub hmm: bool,
    pub user_dict: Option<PathText>,
}

impl View for SegmentOptions {
    type V = OptionsText;

    open spec fn view(&self) -> OptionsText {
        OptionsText {
            min_frequency: self.min_frequency,
            include_single_chars: self.include_single_chars,
            hmm: self.hmm,
            user_dict: path_text(self.user_dict),
        }
    }
}

/// Options that may be missing.
pub open spec fn options_text(options: Option<SegmentOptions>) -> Option<OptionsText> {
    match options {
        Some(options) => Some(options@),
        None => None,
    }
}

/// Whether two sets of options give the same result.
pub open spec fn same_options(a: OptionsText, b: OptionsText) -> bool {
    a.min_frequency == b.min_frequency && a.include_single_chars == b.include_single_chars && a.hmm
        == b.hmm && same_path(a.user_dict, b.user_dict)
}

/// The state of the editor.
#[derive(Debug, PartialEq, Eq)]
pub struct Editor {
    pub screen: Screen,
    pub source_text: String,
    pub source_path: Option<FilePath>,
    pub user_dict: Option<FilePath>,
    pub min_frequency: u64,
    pub include_single_chars: bool,
    pub hmm: bool,
    pub words: Vec<EditableWord>,
    pub next_word_id: u64,
    pub encoded: Vec<EncodedEntry>,
    pub conflicts: Vec<Conflict>,
    pub output_text: String,
    pub with_flypy_header: bool,
    pub search: String,
    pub only_errors: bool,
    pub status: String,
    pub status_is_error: bool,
    pub dark_mode: bool,
    /// Whether a segmenter is kept from the last run.
    pub has_segmenter: bool,
    /// The dictionary that it has loaded.
    pub segmenter_dict: Option<FilePath>,
    /// Whether a text is being segmented.
    pub segmenting: bool,
    /// What the rows were segmented with.
    pub words_options: Option<SegmentOptions>,
    /// Whether the rows have changes that were not saved.
    pub unsaved: bool,
    pub exit_prompt: bool,
    pub exit_confirmed: bool,
}

/// What an `Editor` says.
pub struct EditorText {
    pub screen: Screen,
    pub source_text: Seq<char>,
    pub source_path: Option<PathText>,
    pub user_dict: Option<PathText>,
    pub min_frequency: u64,
    pub include_single_chars: bool,
    pub hmm: bool,
    pub words: Seq<RowText>,
    pub next_word_id: u64,
    pub encoded: Seq<EncodedText>,
    pub conflicts: Seq<ConflictText>,
    pub output_text: Seq<char>,
    pub with_flypy_header: bool,
    pub search: Seq<char>,
    pub only_errors: bool,
    pub status: Seq<char>,
    pub status_is_error: bool,
    pub dark_mode: bool,
    pub has_segmenter: bool,
    pub segmenter_dict: Option<PathText>,
    pub segmenting: bool,
    pub words_options: Option<OptionsText>,
    pub unsaved: bool,
    pub exit_prompt: bool,
    pub exit_confirmed: bool,
}

impl View for Editor {
    type V = EditorText;

    open spec fn view(&self) -> EditorText {
        EditorText {
            screen: self.screen,
            source_text: self.source_text@,
            source_path: path_text(self.source_path),
            user_dict: path_text(self.user_dict),
            min_frequency: self.min_frequency,
            include_single_chars: self.include_single_chars,
            hmm: self.hmm,
            words: views(self.words@),
            next_word_id: self.next_word_id,
            encoded: views(self.encoded@),
            conflicts: views(self.conflicts@),
            output_text: self.output_text@,
            with_flypy_header: self.with_flypy_header,
            search: self.search@,
            only_errors: self.only_errors,
            status: self.status@,
            status_is_error: self.status_is_error,
            dark_mode: self.dark_mode,
            has_segmenter: self.has_segmenter,
            segmenter_dict: path_text(self.segmenter_dict),
            segmenting: self.segmenting,
            words_options: options_text(self.words_options),
            unsaved: self.unsaved,
            exit_prompt: self.exit_prompt,
            exit_confirmed: self.exit_confirmed,
        }
    }
}

/// The state in which the editor starts.
pub open spec fn initial_state() -> EditorText {
    EditorText {
        screen: Screen::Source,
        source_text: Seq::empty(),
        source_path: None,
        user_dict: None,
        min_frequency: 1,
        include_single_chars: false,
        hmm: true,
        words: Seq::empty(),
        next_word_id: 0,
        encoded: Seq::empty(),
        conflicts: Seq::empty(),
        output_text: Seq::empty(),
        with_flypy_header: true,
        search: Seq::empty(),
        only_errors: false,
        status: "请打开文本文件、拖入文件，或直接粘贴原文。"@,
        status_is_error: false,
        dark_mode: false,
        has_segmenter: false,
        segmenter_dict: None,
        segmenting: false,
        words_options: None,
        unsaved: false,
        exit_prompt: false,
        exit_confirmed: false,
    }
}

/// A state with a message in its status line.
pub open spec fn succeeded(state: EditorText, message: Seq<char>) -> EditorText {
    EditorText { status: message, status_is_error: false, ..state }
}

/// A state with an error in its status line.
pub open spec fn failed(state: EditorText, message: Seq<char>) -> EditorText {
    EditorText { status: message, status_is_error: true, ..state }
}

/// The options that are set.
pub open spec fn set_options(state: EditorText) -> OptionsText {
    OptionsText {
        min_frequency: state.min_frequency,
        include_single_chars: state.include_single_chars,
        hmm: state.hmm,
        user_dict: state.user_dict,
    }
}

/// A state whose rows have been checked, and what is made of them with them.
pub open spec fn rebuilt(state: EditorText) -> EditorText {
    let words = checked_rows(state.words);
    let encoded = valid_entries(words);
    EditorText {
        words,
        encoded,
        conflicts: conflicts_of(encoded),
        output_text: dictionary_text(encoded, state.with_flypy_header),
        ..state
    }
}

/// The rows in which a list of entries is revised.
pub open spec fn rows_of(entries: Seq<WordText>, first_id: u64) -> Seq<RowText> {
    Seq::new(entries.len(), |i: int| row_of_entry((first_id + i) as u64, entries[i]))
}

/// A state whose rows have been replaced.
pub open spec fn replaced(state: EditorText, entries: Seq<WordText>) -> EditorText {
    EditorText {
        unsaved: entries.len() > 0,
        ..rebuilt(
            EditorText {
                words: rows_of(entries, state.next_word_id),
                next_word_id: (state.next_word_id + entries.len()) as u64,
                ..state
            },
        )
    }
}

/// Whether the rows were segmented with other options than those that are set.
pub open spec fn is_stale(state: EditorText) -> bool {
    match state.words_options {
        Some(options) => !same_options(options, set_options(state)),
        None => false,
    }
}

/// A state after the rows or the dictionary were to be written, with what is said of success.
pub open spec fn written_out(
    state: EditorText,
    message: Seq<char>,
    written: Result<(), Seq<char>>,
) -> EditorText {
    match written {
        Ok(_) => succeeded(EditorText { unsaved: false, ..state }, message),
        Err(error) => failed(state, error),
    }
}

/// What writing a file gave, as texts.
pub open spec fn write_result(written: Result<(), String>) -> Result<(), Seq<char>> {
    match written {
        Ok(_) => Ok(()),
        Err(error) => Err(error@),
    }
}

/// Whether closing the window waits for an answer.
pub open spec fn waits_for_answer(state: EditorText, requested: bool) -> bool {
    requested && state.unsaved && !state.exit_confirmed
}

/// Whether the window closes on an answer.
pub open spec fn closes_on(state: EditorText, answer: ExitAnswer) -> bool {
    match answer {
        ExitAnswer::Saved => !state.unsaved,
        ExitAnswer::Leave => true,
        ExitAnswer::Stay => false,
    }
}

/// A state after an answer.
pub open spec fn answered(state: EditorText, answer: ExitAnswer) -> EditorText {
    if closes_on(state, answer) {
        EditorText { exit_prompt: false, exit_confirmed: true, ..state }
    } else if answer is Stay {
        EditorText { exit_prompt: false, ..state }
    } else {
        state
    }
}

/// A state after a text was to be segmented.
pub open spec fn started(state: EditorText) -> EditorText {
    if state.segmenting {
        state
    } else if trimmed(state.source_text).len() == 0 {
        failed(state, "原文为空，无法分词。"@)
    } else {
        succeeded(EditorText { segmenting: true, ..state }, "正在分词，请稍候……"@)
    }
}

/// Whether the segmenter that was kept has the dictionary that is set.
pub open spec fn has_right_segmenter(state: EditorText) -> bool {
    state.has_segmenter && same_path(state.segmenter_dict, state.user_dict)
}

/// A state with or without the lines for the input method.
pub open spec fn header_set(state: EditorText, with_flypy_header: bool) -> EditorText {
    if with_flypy_header == state.with_flypy_header {
        state
    } else {
        rebuilt(EditorText { with_flypy_header, ..state })
    }
}

/// Whether the end of a file's name is that of a word list.
pub open spec fn names_list(extension: Option<Seq<char>>) -> bool {
    extension is Some && lower_plain(extension->0) == "tsv"@
}

/// The end of a file's name, if it has one, as a text.
pub open spec fn extension_text(extension: Option<&str>) -> Option<Seq<char>> {
    match extension {
        Some(name) => Some(name@),
        None => None,
    }
}

/// A state after a file was dropped on the window.
pub open spec fn dropped(
    state: EditorText,
    path: PathText,
    extension: Option<Seq<char>>,
    read: Result<(Seq<char>, Seq<char>), Seq<char>>,
) -> EditorText {
    if names_list(extension) {
        list_loaded(state, path, read)
    } else {
        source_loaded(state, path, read)
    }
}

/// Whether there are identifiers left for so many rows.
pub open spec fn has_ids(state: EditorText, rows: nat) -> bool {
    state.next_word_id + rows <= u64::MAX
}

fn same_bytes(a: &[u8], b: &[u8]) -> (same: bool)
    ensures
        same == (a@ == b@),
{
    if a.len() != b.len() {
        return false;
    }
    for i in 0..a.len()
        invariant
            a.len() == b.len(),
            forall|j: int| 0 <= j < i ==> a@[j] == b@[j],
    {
        if a[i] != b[i] {
            return false;
        }
    }
    assert(a@ =~= b@);
    true
}

fn is_same_path(a: &Option<FilePath>, b: &Option<FilePath>) -> (same: bool)
    ensures
        same == same_path(path_text(*a), path_text(*b)),
{
    match (a, b) {
        (Some(a), Some(b)) => same_bytes(&a.key, &b.key),
        (None, None) => true,
        _ => false,
    }
}

fn copy_path(path: &Option<FilePath>) -> (copy: Option<FilePath>)
    ensures
        path_text(copy) == path_text(*path),
{
    match path {
        Some(path) => Some(path.clone()),
        None => None,
    }
}

/// A message with a text at its end.
fn message_with(start: &str, end: &str) -> (message: String)
    ensures
        message@ == start@ + end@,
{
    let mut message: String = start.to_owned();
    message.append(end);
    message
}

/// A message around a number.
fn message_around(start: &str, number: usize, end: &str) -> (message: String)
    ensures
        message@ == start@ + decimal(number as nat) + end@,
{
    let mut message: String = start.to_owned();
    push_decimal(&mut message, number as u64);
    message.append(end);
    message
}

impl Editor {
    /// The editor as it starts.
    pub fn new() -> (editor: Self)
        ensures
            editor@ == initial_state(),
    {
        let editor: Editor = Editor {
            screen: Screen::Source,
            source_text: String::new(),
            source_path: None,
            user_dict: None,
            min_frequency: 1,
            include_single_chars: false,
            hmm: true,
            words: Vec::new(),
            next_word_id: 0,
            encoded: Vec::new(),
            conflicts: Vec::new(),
            output_text: String::new(),
            with_flypy_header: true,
            search: String::new(),
            only_errors: false,
            status: "请打开文本文件、拖入文件，或直接粘贴原文。".to_owned(),
            status_is_error: false,
            dark_mode: false,
            has_segmenter: false,
            segmenter_dict: None,
            segmenting: false,
            words_options: None,
            unsaved: false,
            exit_prompt: false,
            exit_confirmed: false,
        };
        proof {
            assert(editor@.source_text =~= Seq::empty());
            assert(editor@.words =~= Seq::empty());
            assert(editor@.encoded =~= Seq::empty());
            assert(editor@.conflicts =~= Seq::empty());
            assert(editor@.output_text =~= Seq::empty());
            assert(editor@.search =~= Seq::empty());
        }
        editor
    }

    /// Shows a message.
    pub fn set_success(&mut self, message: String)
        ensures
            final(self)@ == succeeded(old(self)@, message@),
    {
        self.status = message;
        self.status_is_error = false;
    }

    /// Shows an error.
    pub fn set_error(&mut self, message: String)
        ensures
            final(self)@ == failed(old(self)@, message@),
    {
        self.status = message;
        self.status_is_error = true;
    }

    /// An identifier that no row has had.
    pub fn take_word_id(&mut self) -> (id: u64)
        requires
            has_ids(old(self)@, 1),
        ensures
            id == old(self).next_word_id,
            final(self)@ == (EditorText {
                next_word_id: (old(self).next_word_id + 1) as u64,
                ..old(self)@
            }),
    {
        let id: u64 = self.next_word_id;
        self.next_word_id = id + 1;
        id
    }

    // Options

    /// The options that are set.
    pub fn current_options(&self) -> (options: SegmentOptions)
        ensures
            options@ == set_options(self@),
    {
        SegmentOptions {
            min_frequency: self.min_frequency,
            include_single_chars: self.include_single_chars,
            hmm: self.hmm,
            user_dict: copy_path(&self.user_dict),
        }
    }

    /// Whether the rows were segmented with other options than those that are set.
    pub fn options_are_stale(&self) -> (stale: bool)
        ensures
            stale <==> self@.words_options is Some && !same_options(
                self@.words_options->0,
                set_options(self@),
            ),
            stale == is_stale(self@),
    {
        match &self.words_options {
            Some(options) => options.min_frequency != self.min_frequency
                || options.include_single_chars != self.include_single_chars || options.hmm
                != self.hmm || !is_same_path(&options.user_dict, &self.user_dict),
            None => false,
        }
    }

    /// Sets the dictionary that the segmenter is to load.
    pub fn choose_user_dict(&mut self, path: FilePath)
        ensures
            final(self)@ == succeeded(
                EditorText { user_dict: Some(path@), ..old(self)@ },
                "已选择用户词典："@ + path@.text,
            ),
    {
        let message: String = message_with("已选择用户词典：", path.text.as_str());
        self.user_dict = Some(path);
        self.set_success(message);
    }

    /// Goes back to the built-in dictionary.
    pub fn remove_user_dict(&mut self)
        ensures
            final(self)@ == (EditorText { user_dict: None, ..old(self)@ }),
    {
        self.user_dict = None;
    }

    // The source

    /// Takes what reading a text file gave: its text and the name of its encoding, or an error.
    pub fn load_source(&mut self, path: FilePath, read: Result<(String, &'static str), String>)
        ensures
            final(self)@ == source_loaded(old(self)@, path@, read_result(read)),
    {
        match read {
            Ok((text, encoding)) => {
                let message: String = if same_text(encoding, "UTF-8") {
                    message_with("已打开：", path.text.as_str())
                } else {
                    let mut message: String = message_with("已按 ", encoding);
                    message.append(" 解码打开：");
                    message.append(path.text.as_str());
                    message
                };
                self.source_text = text;
                self.source_path = Some(path);
                self.screen = Screen::Source;
                self.set_success(message);
            },
            Err(error) => self.set_error(error),
        }
    }

    /// Discards the text and everything made of it.
    pub fn clear_source(&mut self)
        ensures
            final(self)@ == cleared(old(self)@),
    {
        self.source_text = String::new();
        self.source_path = None;
        self.words = Vec::new();
        self.encoded = Vec::new();
        self.conflicts = Vec::new();
        self.output_text = String::new();
        self.words_options = None;
        self.search = String::new();
        self.only_errors = false;
        self.unsaved = false;
        self.screen = Screen::Source;
        self.set_success("已清空原文和已生成的词表。".to_owned());
        proof {
            assert(self@.source_text =~= Seq::empty());
            assert(self@.words =~= Seq::empty());
            assert(self@.encoded =~= Seq::empty());
            assert(self@.conflicts =~= Seq::empty());
            assert(self@.output_text =~= Seq::empty());
            assert(self@.search =~= Seq::empty());
        }
    }

    // Segmentation

    /// Decides whether a run of the segmenter is to be started.
    pub fn start_segmentation(&mut self) -> (start: Start)
        ensures
            match start {
                Start::Busy => old(self).segmenting && final(self)@ == old(self)@,
                Start::NoText => !old(self).segmenting && trimmed(old(self).source_text@).len()
                    == 0 && final(self)@ == failed(old(self)@, "原文为空，无法分词。"@),
                Start::Run { reuse, options } => !old(self).segmenting && trimmed(
                    old(self).source_text@,
                ).len() > 0 && final(self)@ == succeeded(
                    EditorText { segmenting: true, ..old(self)@ },
                    "正在分词，请稍候……"@,
                ) && options@ == set_options(old(self)@) && reuse == (old(self).has_segmenter
                    && same_path(old(self)@.segmenter_dict, old(self)@.user_dict)),
            },
            final(self)@ == started(old(self)@),
            start matches Start::Run { reuse, .. } ==> reuse == has_right_segmenter(old(self)@),
    {
        if self.segmenting {
            return Start::Busy;
        }
        let core: String = trim_text(self.source_text.as_str());
        if core.as_str().unicode_len() == 0 {
            self.set_error("原文为空，无法分词。".to_owned());
            return Start::NoText;
        }
        let options: SegmentOptions = self.current_options();
        let reuse: bool = self.has_segmenter && is_same_path(
            &self.segmenter_dict,
            &options.user_dict,
        );
        self.segmenting = true;
        self.set_success("正在分词，请稍候……".to_owned());
        Start::Run { reuse, options }
    }

    /// Takes what the run of the segmenter has come to.
    #[verifier::rlimit(40)]
    pub fn poll_segmentation(&mut self, event: SegmentEvent)
        requires
            event matches SegmentEvent::Ready { entries, .. } ==> has_ids(
                old(self)@,
                entries@.len(),
            ),
        ensures
            final(self)@ == (if old(self).segmenting {
                polled(old(self)@, event)
            } else {
                old(self)@
            }),
    {
        if !self.segmenting {
            return;
        }
        match event {
            SegmentEvent::Pending => {},
            SegmentEvent::Lost => {
                self.segmenting = false;
                self.set_error("分词任务意外结束，请重试。".to_owned());
            },
            SegmentEvent::Failed(error) => {
                self.segmenting = false;
                self.set_error(error);
            },
            SegmentEvent::Ready { entries, options } => {
                self.finish_segmentation(entries, options);
            },
        }
    }

    #[verifier::rlimit(40)]
    fn finish_segmentation(&mut self, entries: Vec<FrequencyEntry>, options: SegmentOptions)
        requires
            has_ids(old(self)@, entries@.len()),
        ensures
            final(self)@ == words_found(old(self)@, views(entries@), options@),
    {
        let words: Vec<WordEntry> = entries_of(entries);
        assert(views(words@).len() == words@.len());
        self.segmenting = false;
        self.has_segmenter = true;
        self.segmenter_dict = copy_path(&options.user_dict);
        self.words_options = Some(options);
        let message: String = message_around("分词完成，共得到 ", words.len(), " 个词语。");
        self.replace_words(words);
        self.screen = Screen::Words;
        self.set_success(message);
    }

    // The rows

    /// Replaces all rows.
    #[verifier::rlimit(40)]
    pub fn replace_words(&mut self, entries: Vec<WordEntry>)
        requires
            has_ids(old(self)@, entries@.len()),
        ensures
            final(self)@ == replaced(old(self)@, views(entries@)),
    {
        let ghost texts = views(entries@);
        let ghost first = self.next_word_id;
        let count: usize = entries.len();
        let mut rows: Vec<EditableWord> = Vec::new();
        for entry in it: entries
            invariant
                it.seq() == entries@,
                texts == views(entries@),
                self.next_word_id == first,
                first + texts.len() <= u64::MAX,
                rows@.len() == it.index(),
                forall|i: int|
                    0 <= i < rows@.len() ==> (#[trigger] rows@[i])@ == row_of_entry(
                        (first + i) as u64,
                        texts[i],
                    ),
        {
            let id: u64 = self.next_word_id + rows.len() as u64;
            rows.push(EditableWord::from_word_entry(id, entry));
        }
        assert(views(rows@) =~= rows_of(texts, first));
        self.next_word_id = self.next_word_id + count as u64;
        self.words = rows;
        self.rebuild_output();
        self.unsaved = count > 0;
    }

    /// Takes what reading a word list gave.
    #[verifier::rlimit(40)]
    pub fn load_word_list(&mut self, path: FilePath, read: Result<(String, &'static str), String>)
        requires
            read matches Ok((text, _)) ==> has_ids(
                old(self)@,
                numbered_entries(text@).len(),
            ),
        ensures
            final(self)@ == list_loaded(old(self)@, path@, read_result(read)),
    {
        match read {
            Ok((text, _)) => {
                let entries: Vec<WordEntry> = parse_word_list_lenient(text.as_str());
                assert(views(entries@).len() == entries@.len());
                self.replace_words(entries);
                self.words_options = None;
                self.screen = Screen::Words;
                let errors: usize = self.error_count();
                let mut message: String = "已导入 ".to_owned();
                push_decimal(&mut message, self.words.len() as u64);
                assert(self.words@.len() == self@.words.len());
                if errors > 0 {
                    self.only_errors = true;
                    message.append(" 个词语，其中 ");
                    push_decimal(&mut message, errors as u64);
                    message.append(" 行有问题（已切换到“只看错误”）：");
                    message.append(path.text.as_str());
                    self.set_error(message);
                } else {
                    message.append(" 个词语：");
                    message.append(path.text.as_str());
                    self.set_success(message);
                }
            },
            Err(error) => self.set_error(error),
        }
    }

    /// How many rows have an error.
    pub fn error_count(&self) -> (count: usize)
        ensures
            count == error_total(self@.words),
    {
        count_errors(&self.words)
    }

    /// Checks the rows and makes the dictionary and the report of them.
    pub fn rebuild_output(&mut self)
        ensures
            final(self)@ == rebuilt(old(self)@),
    {
        self.encoded = check_rows(&mut self.words);
        self.conflicts = find_conflicts(&self.encoded);
        self.output_text = render_encoded(&self.encoded, self.with_flypy_header);
    }

    /// Moves the row at `from` to the place `to`. The output is as it was until it is rebuilt.
    pub fn move_row(&mut self, from: usize, to: usize)
        ensures
            final(self)@ == (EditorText {
                words: moved(old(self)@.words, from as int, to as int),
                ..old(self)@
            }),
    {
        move_item(&mut self.words, from, to);
        assert(views(self.words@) =~= moved(views(old(self).words@), from as int, to as int));
    }

    /// Adds an empty row.
    pub fn add_row(&mut self)
        requires
            has_ids(old(self)@, 1),
        ensures
            final(self)@ == row_added(old(self)@),
    {
        let id: u64 = self.take_word_id();
        self.words.push(EditableWord::new(id));
        assert(views(self.words@) =~= old(self)@.words.push(
            fresh_row(id, Seq::empty(), Seq::empty(), Seq::empty()),
        ));
        self.rebuild_output();
        self.unsaved = true;
    }

    /// Applies what was done to the table: cells are changed, then a row goes, then one moves.
    #[verifier::rlimit(40)]
    pub fn apply_changes(
        &mut self,
        edits: Vec<CellEdit>,
        removed: Option<usize>,
        movement: Option<(usize, usize)>,
    )
        requires
            forall|k: int| 0 <= k < edits@.len() ==> (#[trigger] edits@[k]).row < old(self).words@.len(),
            removed matches Some(place) ==> place < old(self).words@.len(),
        ensures
            final(self)@ == (if edits@.len() == 0 && removed is None && movement is None {
                old(self)@
            } else {
                changed(old(self)@, edits@, removed, movement)
            }),
    {
        if edits.len() > 0 || removed.is_some() || movement.is_some() {
            self.change_words(edits, removed, movement);
        }
    }

    #[verifier::rlimit(40)]
    fn change_words(
        &mut self,
        edits: Vec<CellEdit>,
        removed: Option<usize>,
        movement: Option<(usize, usize)>,
    )
        requires
            forall|k: int| 0 <= k < edits@.len() ==> (#[trigger] edits@[k]).row < old(self).words@.len(),
            removed matches Some(place) ==> place < old(self).words@.len(),
        ensures
            final(self)@ == changed(old(self)@, edits@, removed, movement),
    {
        change_rows(&mut self.words, edits, removed, movement);
        self.rebuild_output();
        self.unsaved = true;
    }

    // Saving

    /// The bytes of the word list that the rows are saved as.
    pub fn word_list_bytes(&self) -> (bytes: Vec<u8>)
        ensures
            bytes@ == file_bytes(rows_text(self@.words)),
    {
        let text: String = render_editable_words(&self.words);
        encode_file(text.as_str())
    }

    /// Takes what saving the word list gave.
    pub fn finish_save(&mut self, path: FilePath, written: Result<(), String>)
        ensures
            final(self)@ == match written {
                Ok(_) => succeeded(
                    EditorText { unsaved: false, ..old(self)@ },
                    "词表已保存："@ + path@.text,
                ),
                Err(error) => failed(old(self)@, error@),
            },
            final(self)@ == written_out(
                old(self)@,
                "词表已保存："@ + path@.text,
                write_result(written),
            ),
    {
        match written {
            Ok(_) => {
                self.unsaved = false;
                self.set_success(message_with("词表已保存：", path.text.as_str()));
            },
            Err(error) => self.set_error(error),
        }
    }

    /// Decides whether the dictionary can be exported.
    #[verifier::rlimit(40)]
    pub fn prepare_export(&mut self) -> (ready: bool)
        ensures
            ready <==> error_total(rebuilt(old(self)@).words) == 0 && rebuilt(
                old(self)@,
            ).encoded.len() > 0,
            final(self)@ == export_prepared(old(self)@),
    {
        self.rebuild_output();
        let errors: usize = self.error_count();
        if errors > 0 {
            self.set_error(message_around("仍有 ", errors, " 行错误，请修正后再导出最终码表。"));
            self.screen = Screen::Words;
            self.only_errors = true;
            return false;
        }
        assert(self.encoded@.len() == self@.encoded.len());
        if self.encoded.len() == 0 {
            self.set_error("当前没有可导出的词语。".to_owned());
            return false;
        }
        true
    }

    /// The bytes of the dictionary.
    pub fn dictionary_bytes(&self) -> (bytes: Vec<u8>)
        ensures
            bytes@ == file_bytes(self@.output_text),
    {
        encode_file(self.output_text.as_str())
    }

    /// Takes what exporting the dictionary gave.
    pub fn finish_export(&mut self, path: FilePath, written: Result<(), String>)
        ensures
            final(self)@ == match written {
                Ok(_) => succeeded(
                    EditorText { unsaved: false, ..old(self)@ },
                    "已导出 "@ + decimal(old(self)@.encoded.len()) + " 个词语："@ + path@.text,
                ),
                Err(error) => failed(old(self)@, error@),
            },
            final(self)@ == written_out(
                old(self)@,
                "已导出 "@ + decimal(old(self)@.encoded.len()) + " 个词语："@ + path@.text,
                write_result(written),
            ),
    {
        match written {
            Ok(_) => {
                assert(self.encoded@.len() == self@.encoded.len());
                let mut message: String = message_around(
                    "已导出 ",
                    self.encoded.len(),
                    " 个词语：",
                );
                message.append(path.text.as_str());
                self.unsaved = false;
                self.set_success(message);
            },
            Err(error) => self.set_error(error),
        }
    }

    /// The bytes of the report of shared codes.
    pub fn conflict_bytes(&self) -> (bytes: Vec<u8>)
        ensures
            bytes@ == file_bytes(report_text(self@.conflicts)),
    {
        let text: String = render_conflicts(&self.conflicts);
        encode_file(text.as_str())
    }

    /// Takes what saving the report of shared codes gave.
    pub fn finish_conflict_export(&mut self, path: FilePath, written: Result<(), String>)
        ensures
            final(self)@ == match written {
                Ok(_) => succeeded(old(self)@, "重码报告已保存："@ + path@.text),
                Err(error) => failed(old(self)@, error@),
            },
    {
        match written {
            Ok(_) => self.set_success(message_with("重码报告已保存：", path.text.as_str())),
            Err(error) => self.set_error(error),
        }
    }

    /// Says that the dictionary was copied.
    pub fn finish_copy(&mut self)
        ensures
            final(self)@ == succeeded(
                old(self)@,
                "已复制 "@ + decimal(old(self)@.encoded.len()) + " 个词语到剪贴板。"@,
            ),
    {
        assert(self.encoded@.len() == self@.encoded.len());
        let message: String = message_around("已复制 ", self.encoded.len(), " 个词语到剪贴板。");
        self.set_success(message);
    }

    // The window

    /// Goes from the rows to the dictionary made of them.
    pub fn show_output(&mut self)
        ensures
            final(self)@ == (EditorText { screen: Screen::Output, ..rebuilt(old(self)@) }),
    {
        self.rebuild_output();
        self.screen = Screen::Output;
    }

    /// Puts the lines for the input method before the dictionary, or takes them away.
    pub fn set_header(&mut self, with_flypy_header: bool)
        ensures
            final(self)@ == (if with_flypy_header == old(self).with_flypy_header {
                old(self)@
            } else {
                rebuilt(EditorText { with_flypy_header, ..old(self)@ })
            }),
            final(self)@ == header_set(old(self)@, with_flypy_header),
    {
        if with_flypy_header != self.with_flypy_header {
            self.with_flypy_header = with_flypy_header;
            self.rebuild_output();
        }
    }

    /// Shows all rows again.
    pub fn clear_filter(&mut self)
        ensures
            final(self)@ == (EditorText {
                search: Seq::empty(),
                only_errors: false,
                ..old(self)@
            }),
    {
        self.search = String::new();
        self.only_errors = false;
        assert(self.search@ =~= Seq::empty());
    }

    /// Changes between the light and the dark theme.
    pub fn toggle_theme(&mut self)
        ensures
            final(self)@ == (EditorText { dark_mode: !old(self).dark_mode, ..old(self)@ }),
    {
        self.dark_mode = !self.dark_mode;
    }

    /// Whether a file dropped on the window is a word list: by the end of its name alone, on every
    /// page.
    pub fn takes_as_word_list(&self, extension: Option<&str>) -> (as_list: bool)
        ensures
            as_list <==> extension is Some && lower_plain(extension->0@) == "tsv"@,
            as_list == names_list(extension_text(extension)),
    {
        match extension {
            Some(name) => is_tsv(name),
            None => false,
        }
    }

    /// Takes what reading a file gave that was dropped on the window: a word list by the end of its
    /// name, a text otherwise.
    pub fn load_dropped_file(
        &mut self,
        path: FilePath,
        extension: Option<&str>,
        read: Result<(String, &'static str), String>,
    )
        requires
            extension is Some && lower_plain(extension->0@) == "tsv"@ ==> (read matches Ok(
                (text, _),
            ) ==> has_ids(old(self)@, numbered_entries(text@).len())),
        ensures
            final(self)@ == (if extension is Some && lower_plain(extension->0@) == "tsv"@ {
                list_loaded(old(self)@, path@, read_result(read))
            } else {
                source_loaded(old(self)@, path@, read_result(read))
            }),
            final(self)@ == dropped(
                old(self)@,
                path@,
                extension_text(extension),
                read_result(read),
            ),
    {
        if self.takes_as_word_list(extension) {
            self.load_word_list(path, read);
        } else {
            self.load_source(path, read);
        }
    }

    /// Decides whether closing the window is put off until it is clear what becomes of the rows.
    pub fn handle_close_request(&mut self, requested: bool) -> (put_off: bool)
        ensures
            put_off <==> requested && old(self).unsaved && !old(self).exit_confirmed,
            put_off == waits_for_answer(old(self)@, requested),
            final(self)@ == (if put_off {
                EditorText { exit_prompt: true, ..old(self)@ }
            } else {
                old(self)@
            }),
    {
        if requested && self.unsaved && !self.exit_confirmed {
            self.exit_prompt = true;
            true
        } else {
            false
        }
    }

    /// Takes the answer to the question what becomes of the rows; says whether the window closes.
    pub fn answer_exit_prompt(&mut self, answer: ExitAnswer) -> (closes: bool)
        ensures
            closes <==> answer is Leave || (answer is Saved && !old(self).unsaved),
            closes == closes_on(old(self)@, answer),
            final(self)@ == answered(old(self)@, answer),
            final(self)@ == (if closes {
                EditorText { exit_prompt: false, exit_confirmed: true, ..old(self)@ }
            } else if answer is Stay {
                EditorText { exit_prompt: false, ..old(self)@ }
            } else {
                old(self)@
            }),
    {
        match answer {
            ExitAnswer::Saved => {
                if self.unsaved {
                    return false;
                }
                self.exit_prompt = false;
                self.exit_confirmed = true;
                true
            },
            ExitAnswer::Leave => {
                self.exit_prompt = false;
                self.exit_confirmed = true;
                true
            },
            ExitAnswer::Stay => {
                self.exit_prompt = false;
                false
            },
        }
    }
}

// What comes in and what goes out

/// What is to be done when a text is to be segmented.
#[derive(Debug, PartialEq, Eq)]
pub enum Start {
    /// Nothing: a run has not ended yet.
    Busy,
    /// Nothing: there is no text.
    NoText,
    /// A run, with the segmenter that was kept if `reuse` says so.
    Run { reuse: bool, options: SegmentOptions },
}

/// What a run of the segmenter has come to.
#[derive(Debug, PartialEq, Eq)]
pub enum SegmentEvent {
    Pending,
    Lost,
    Failed(String),
    Ready { entries: Vec<FrequencyEntry>, options: SegmentOptions },
}

/// What is to become of the rows when the window closes.
#[derive(Clone, Copy, Debug, PartialEq, Eq)]
pub enum ExitAnswer {
    /// They were to be saved.
    Saved,
    /// They are discarded.
    Leave,
    /// The window stays.
    Stay,
}

/// The columns of the table that can be changed.
#[derive(Clone, Copy, Debug, PartialEq, Eq)]
pub enum Column {
    Word,
    Frequency,
    Pinyin,
}

/// What was typed into a cell.
#[derive(Debug, PartialEq, Eq)]
pub struct CellEdit {
    pub row: usize,
    pub column: Column,
    pub text: String,
}

/// A row with another text in one of its cells.
pub open spec fn with_cell(row: RowText, column: Column, text: Seq<char>) -> RowText {
    match column {
        Column::Word => RowText { word: text, ..row },
        Column::Frequency => RowText { frequency: text, ..row },
        Column::Pinyin => RowText { pinyin: text, ..row },
    }
}

/// The rows after cells have been changed.
pub open spec fn cells_changed(rows: Seq<RowText>, edits: Seq<CellEdit>) -> Seq<RowText>
    decreases edits.len(),
{
    if edits.len() == 0 {
        rows
    } else {
        let before = cells_changed(rows, edits.drop_last());
        let edit = edits.last();
        before.update(
            edit.row as int,
            with_cell(before[edit.row as int], edit.column, edit.text@),
        )
    }
}

/// The rows after cells have been changed, a row has gone and one has moved.
pub open spec fn rows_changed(
    rows: Seq<RowText>,
    edits: Seq<CellEdit>,
    removed: Option<usize>,
    movement: Option<(usize, usize)>,
) -> Seq<RowText> {
    let edited = cells_changed(rows, edits);
    let rest = match removed {
        Some(place) => edited.remove(place as int),
        None => edited,
    };
    match movement {
        Some((from, to)) => moved(rest, from as int, to as int),
        None => rest,
    }
}

fn change_cells(rows: &mut Vec<EditableWord>, edits: Vec<CellEdit>)
    requires
        forall|k: int| 0 <= k < edits@.len() ==> (#[trigger] edits@[k]).row < old(rows)@.len(),
    ensures
        views(final(rows)@) == cells_changed(views(old(rows)@), edits@),
{
    let ghost all = views(rows@);
    let ghost list = edits@;
    assert(list.take(0) =~= Seq::empty());
    for edit in it: edits
        invariant
            it.seq() == list,
            forall|k: int| 0 <= k < list.len() ==> (#[trigger] list[k]).row < all.len(),
            views(rows@) == cells_changed(all, list.take(it.index())),
            rows@.len() == all.len(),
    {
        let ghost k = it.index();
        let ghost before = views(rows@);
        assert(list[k] == edit);
        assert(list.take(k + 1).drop_last() =~= list.take(k));
        assert(list.take(k + 1).last() == edit);
        let place: usize = edit.row;
        match edit.column {
            Column::Word => {
                rows[place].word = edit.text;
            },
            Column::Frequency => {
                rows[place].frequency = edit.text;
            },
            Column::Pinyin => {
                rows[place].pinyin = edit.text;
            },
        }
        assert(views(rows@) =~= before.update(
            place as int,
            with_cell(before[place as int], edit.column, edit.text@),
        ));
    }
    assert(list.take(list.len() as int) =~= list);
}

fn change_rows(
    rows: &mut Vec<EditableWord>,
    edits: Vec<CellEdit>,
    removed: Option<usize>,
    movement: Option<(usize, usize)>,
)
    requires
        forall|k: int| 0 <= k < edits@.len() ==> (#[trigger] edits@[k]).row < old(rows)@.len(),
        removed matches Some(place) ==> place < old(rows)@.len(),
    ensures
        views(final(rows)@) == rows_changed(views(old(rows)@), edits@, removed, movement),
{
    proof {
        lemma_cells_changed_len(views(rows@), edits@);
    }
    change_cells(rows, edits);
    let ghost edited = views(rows@);
    assert(edited.len() == rows@.len());
    if let Some(place) = removed {
        rows.remove(place);
        assert(views(rows@) =~= edited.remove(place as int));
    }
    let ghost rest = views(rows@);
    if let Some((from, to)) = movement {
        move_item(rows, from, to);
        assert(views(rows@) =~= moved(rest, from as int, to as int));
    }
}

proof fn lemma_cells_changed_len(rows: Seq<RowText>, edits: Seq<CellEdit>)
    requires
        forall|k: int| 0 <= k < edits.len() ==> (#[trigger] edits[k]).row < rows.len(),
    ensures
        cells_changed(rows, edits).len() == rows.len(),
    decreases edits.len(),
{
    if edits.len() > 0 {
        lemma_cells_changed_len(rows, edits.drop_last());
    }
}

/// A state after something was done to the table.
pub open spec fn changed(
    state: EditorText,
    edits: Seq<CellEdit>,
    removed: Option<usize>,
    movement: Option<(usize, usize)>,
) -> EditorText {
    EditorText {
        unsaved: true,
        ..rebuilt(
            EditorText { words: rows_changed(state.words, edits, removed, movement), ..state },
        )
    }
}

/// A state with one more row, an empty one.
pub open spec fn row_added(state: EditorText) -> EditorText {
    EditorText {
        unsaved: true,
        ..rebuilt(
            EditorText {
                words: state.words.push(
                    fresh_row(state.next_word_id, Seq::empty(), Seq::empty(), Seq::empty()),
                ),
                next_word_id: (state.next_word_id + 1) as u64,
                ..state
            },
        )
    }
}

/// What reading a file gave, as texts.
pub open spec fn read_result(read: Result<(String, &'static str), String>) -> Result<
    (Seq<char>, Seq<char>),
    Seq<char>,
> {
    match read {
        Ok((text, encoding)) => Ok((text@, encoding@)),
        Err(error) => Err(error@),
    }
}

/// A state after a text file was to be opened.
pub open spec fn source_loaded(
    state: EditorText,
    path: PathText,
    read: Result<(Seq<char>, Seq<char>), Seq<char>>,
) -> EditorText {
    match read {
        Ok((text, encoding)) => succeeded(
            EditorText {
                source_text: text,
                source_path: Some(path),
                screen: Screen::Source,
                ..state
            },
            if encoding == "UTF-8"@ {
                "已打开："@ + path.text
            } else {
                "已按 "@ + encoding + " 解码打开："@ + path.text
            },
        ),
        Err(error) => failed(state, error),
    }
}

/// A state without a text and without rows.
pub open spec fn cleared(state: EditorText) -> EditorText {
    succeeded(
        EditorText {
            source_text: Seq::empty(),
            source_path: None,
            words: Seq::empty(),
            encoded: Seq::empty(),
            conflicts: Seq::empty(),
            output_text: Seq::empty(),
            words_options: None,
            search: Seq::empty(),
            only_errors: false,
            unsaved: false,
            screen: Screen::Source,
            ..state
        },
        "已清空原文和已生成的词表。"@,
    )
}

/// The entries of the words that the segmenter found.
pub open spec fn segmented(entries: Seq<FrequencyText>) -> Seq<WordText> {
    Seq::new(
        entries.len(),
        |i: int|
            WordText {
                word: entries[i].word,
                frequency: Some(entries[i].frequency),
                pinyin: None,
            },
    )
}

/// A state after the segmenter has found words.
pub open spec fn words_found(
    state: EditorText,
    entries: Seq<FrequencyText>,
    options: OptionsText,
) -> EditorText {
    succeeded(
        EditorText {
            screen: Screen::Words,
            ..replaced(
                EditorText {
                    segmenting: false,
                    has_segmenter: true,
                    segmenter_dict: options.user_dict,
                    words_options: Some(options),
                    ..state
                },
                segmented(entries),
            )
        },
        "分词完成，共得到 "@ + decimal(entries.len()) + " 个词语。"@,
    )
}

/// A state in which a text is being segmented, after the run has come to something.
pub open spec fn polled(state: EditorText, event: SegmentEvent) -> EditorText {
    let stopped = EditorText { segmenting: false, ..state };
    match event {
        SegmentEvent::Pending => state,
        SegmentEvent::Lost => failed(stopped, "分词任务意外结束，请重试。"@),
        SegmentEvent::Failed(error) => failed(stopped, error@),
        SegmentEvent::Ready { entries, options } => words_found(
            state,
            views(entries@),
            options@,
        ),
    }
}

/// A state after a word list was to be opened.
pub open spec fn list_loaded(
    state: EditorText,
    path: PathText,
    read: Result<(Seq<char>, Seq<char>), Seq<char>>,
) -> EditorText {
    match read {
        Ok((text, _)) => {
            let entries = word_entries(text);
            let loaded = EditorText {
                words_options: None,
                screen: Screen::Words,
                ..replaced(state, entries)
            };
            let errors = error_total(loaded.words);
            if errors > 0 {
                failed(
                    EditorText { only_errors: true, ..loaded },
                    "已导入 "@ + decimal(entries.len()) + " 个词语，其中 "@ + decimal(errors)
                        + " 行有问题（已切换到“只看错误”）："@ + path.text,
                )
            } else {
                succeeded(
                    loaded,
                    "已导入 "@ + decimal(entries.len()) + " 个词语："@ + path.text,
                )
            }
        },
        Err(error) => failed(state, error),
    }
}

/// A state after the dictionary was to be exported.
pub open spec fn export_prepared(state: EditorText) -> EditorText {
    let built = rebuilt(state);
    let errors = error_total(built.words);
    if errors > 0 {
        EditorText {
            screen: Screen::Words,
            only_errors: true,
            ..failed(built, "仍有 "@ + decimal(errors) + " 行错误，请修正后再导出最终码表。"@)
        }
    } else if built.encoded.len() == 0 {
        failed(built, "当前没有可导出的词语。"@)
    } else {
        built
    }
}

fn entries_of(entries: Vec<FrequencyEntry>) -> (words: Vec<WordEntry>)
    ensures
        views(words@) == segmented(views(entries@)),
{
    let mut words: Vec<WordEntry> = Vec::new();
    for entry in it: entries
        invariant
            it.seq() == entries@,
            words@.len() == it.index(),
            forall|i: int|
                0 <= i < words@.len() ==> (#[trigger] words@[i])@ == segmented(views(entries@))[i],
    {
        words.push(
            WordEntry { word: entry.word, frequency: Some(entry.frequency), pinyin: None },
        );
    }
    assert(views(words@) =~= segmented(views(entries@)));
    words
}

fn is_tsv(extension: &str) -> (same: bool)
    ensures
        same <==> lower_plain(extension@) == "tsv"@,
{
    let chars: Vec<char> = to_chars(extension);
    let ghost lower = lower_plain(extension@);
    proof {
        reveal_strlit("tsv");
    }
    if chars.len() != 3 {
        assert(lower.len() != "tsv"@.len());
        return false;
    }
    let same: bool = (chars[0] == 't' || chars[0] == 'T') && (chars[1] == 's' || chars[1] == 'S')
        && (chars[2] == 'v' || chars[2] == 'V');
    proof {
        assert(lower[0] == lower_char(chars@[0]) && lower[1] == lower_char(chars@[1]) && lower[2]
            == lower_char(chars@[2]));
        if same {
            assert(lower =~= "tsv"@);
        }
    }
    same
}

/// What the bytes of a file are, or that their encoding is not known.
pub open spec fn file_text(path: Seq<char>, bytes: Seq<u8>) -> Result<
    (Seq<char>, Seq<char>),
    Seq<char>,
> {
    match decoded_text(bytes) {
        Some(text) => Ok(text),
        None => Err("无法识别文件 "@ + path + " 的编码，请另存为 UTF-8 后重试。"@),
    }
}

/// Reads the bytes of a text file; the path is for the message.
pub fn decode_file(path: &str, bytes: &[u8]) -> (text: Result<(String, &'static str), String>)
    requires
        fits_decoder(bytes@),
    ensures
        read_result(text) == file_text(path@, bytes@),
{
    match decode_text(bytes) {
        Some(text) => Ok(text),
        None => {
            let mut message: String = message_with("无法识别文件 ", path);
            message.append(" 的编码，请另存为 UTF-8 后重试。");
            Err(message)
        },
    }
}

} // verus!
