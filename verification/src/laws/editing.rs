//! What each step does to the state of the editor.

use crate::cli::extract_defaults;
use crate::conflict::conflicts_of;
use crate::decode::decoded_text;
use crate::editable::{fresh_row, row_of_entry, RowText};
use crate::editor::{
    answered, cells_changed, changed, cleared, closes_on, dropped, export_prepared, file_text,
    has_ids, has_right_segmenter, header_set, initial_state, is_stale, list_loaded, names_list,
    polled, rebuilt, replaced, row_added, rows_changed, rows_of, same_options, same_path,
    segmented, set_options, source_loaded, started, waits_for_answer, words_found, written_out,
    CellEdit, Column, EditorText, ExitAnswer, OptionsText, PathText, Screen,
    SegmentEvent,
};
use crate::encode::dictionary_text;
use crate::entry::{FrequencyText, WordText};
use crate::foreign::{lower_char, lower_plain};
use crate::rows::{checked_rows, error_total, moved, valid_entries};
use crate::text::{decimal, trimmed, views};
use crate::word_list::word_entries;
use vstd::prelude::*;

verus! {

// Options

/// Options are the same if each of them is, a dictionary by the bytes of its path; those that are
/// set are the ones shown.
pub proof fn law_options_are_told_apart(a: OptionsText, b: OptionsText, state: EditorText)
    ensures
        same_path(a.user_dict, b.user_dict) <==> {
            ||| a.user_dict is None && b.user_dict is None
            ||| a.user_dict is Some && b.user_dict is Some && a.user_dict->0.key
                == b.user_dict->0.key
        },
        same_options(a, b) <==> {
            &&& a.min_frequency == b.min_frequency
            &&& a.include_single_chars == b.include_single_chars
            &&& a.hmm == b.hmm
            &&& same_path(a.user_dict, b.user_dict)
        },
        set_options(state).min_frequency == state.min_frequency,
        set_options(state).include_single_chars == state.include_single_chars,
        set_options(state).hmm == state.hmm,
        set_options(state).user_dict == state.user_dict,
{
}

/// The editor starts with the options that `extract` has if nothing is asked for, without a text and
/// without rows, and with nothing to save.
pub proof fn law_editor_starts_empty()
    ensures
        initial_state().min_frequency == extract_defaults().min_frequency,
        initial_state().include_single_chars == extract_defaults().include_single,
        initial_state().hmm == extract_defaults().hmm,
        initial_state().user_dict is None,
        initial_state().source_text.len() == 0,
        initial_state().source_path is None,
        initial_state().words.len() == 0,
        initial_state().encoded.len() == 0,
        initial_state().conflicts.len() == 0,
        initial_state().output_text.len() == 0,
        initial_state().search.len() == 0,
        !initial_state().only_errors,
        !initial_state().status_is_error,
        !initial_state().has_segmenter,
        !initial_state().segmenting,
        initial_state().words_options is None,
        initial_state().screen is Source,
        !waits_for_answer(initial_state(), true),
        !initial_state().exit_prompt,
        !initial_state().exit_confirmed,
{
}

// Building

/// Building checks the rows and makes the entries, the conflicts and the dictionary of what is
/// valid in them; nothing else of the state changes.
pub proof fn law_building_makes_the_output(state: EditorText)
    ensures
        rebuilt(state).words == checked_rows(state.words),
        rebuilt(state).encoded == valid_entries(rebuilt(state).words),
        rebuilt(state).conflicts == conflicts_of(rebuilt(state).encoded),
        rebuilt(state).output_text == dictionary_text(
            rebuilt(state).encoded,
            state.with_flypy_header,
        ),
        rebuilt(state) == (EditorText {
            words: rebuilt(state).words,
            encoded: rebuilt(state).encoded,
            conflicts: rebuilt(state).conflicts,
            output_text: rebuilt(state).output_text,
            ..state
        }),
{
}

/// Each entry is put into a row of its own, in the order of the entries and with the identifiers
/// that follow those in use; what was in the table goes. Rows are to be saved if there are any.
pub proof fn law_rows_are_replaced(state: EditorText, entries: Seq<WordText>)
    requires
        has_ids(state, entries.len()),
    ensures
        rows_of(entries, state.next_word_id).len() == entries.len(),
        forall|i: int|
            0 <= i < entries.len() ==> #[trigger] rows_of(entries, state.next_word_id)[i]
                == row_of_entry((state.next_word_id + i) as u64, entries[i]),
        replaced(state, entries).next_word_id == state.next_word_id + entries.len(),
        replaced(state, entries).unsaved <==> entries.len() > 0,
        replaced(state, entries) == (EditorText {
            unsaved: replaced(state, entries).unsaved,
            ..rebuilt(
                EditorText {
                    words: rows_of(entries, state.next_word_id),
                    next_word_id: replaced(state, entries).next_word_id,
                    ..state
                },
            )
        }),
{
}

// The table

/// One more row is an empty one at the end, with an identifier that was not in use.
pub proof fn law_row_is_added(state: EditorText)
    requires
        has_ids(state, 1),
    ensures
        row_added(state).next_word_id == state.next_word_id + 1,
        row_added(state).unsaved,
        row_added(state).words.len() == state.words.len() + 1,
        row_added(state).words.last().id == state.next_word_id,
        row_added(state).words.last().word.len() == 0,
        row_added(state).words.last().frequency.len() == 0,
        row_added(state).words.last().pinyin.len() == 0,
        forall|i: int|
            0 <= i < state.words.len() ==> {
                &&& (#[trigger] row_added(state).words[i]).id == state.words[i].id
                &&& row_added(state).words[i].word == state.words[i].word
                &&& row_added(state).words[i].frequency == state.words[i].frequency
                &&& row_added(state).words[i].pinyin == state.words[i].pinyin
            },
        row_added(state) == (EditorText {
            unsaved: true,
            ..rebuilt(
                EditorText {
                    words: state.words.push(
                        fresh_row(state.next_word_id, Seq::empty(), Seq::empty(), Seq::empty()),
                    ),
                    next_word_id: row_added(state).next_word_id,
                    ..state
                },
            )
        }),
{
    let row = fresh_row(state.next_word_id, Seq::empty(), Seq::empty(), Seq::empty());
    let rows = state.words.push(row);
    assert(rows[state.words.len() as int] == row);
    assert forall|i: int| 0 <= i < rows.len() implies {
        &&& (#[trigger] checked_rows(rows)[i]).id == rows[i].id
        &&& checked_rows(rows)[i].word == rows[i].word
        &&& checked_rows(rows)[i].frequency == rows[i].frequency
        &&& checked_rows(rows)[i].pinyin == rows[i].pinyin
    } by {
        crate::laws::table::law_row_is_checked(rows, i);
    }
}

/// A change of a cell puts the text there and changes no other cell of the table; changes are made
/// one after the other.
pub proof fn law_cells_are_changed(
    rows: Seq<RowText>,
    edits: Seq<CellEdit>,
    edit: CellEdit,
    more: Seq<CellEdit>,
)
    requires
        edit.row < rows.len(),
    ensures
        cells_changed(rows, Seq::empty()) == rows,
        cells_changed(rows, seq![edit]).len() == rows.len(),
        forall|i: int|
            0 <= i < rows.len() && i != edit.row ==> #[trigger] cells_changed(rows, seq![edit])[i]
                == rows[i],
        cells_changed(rows, seq![edit])[edit.row as int] == match edit.column {
            Column::Word => RowText { word: edit.text@, ..rows[edit.row as int] },
            Column::Frequency => RowText { frequency: edit.text@, ..rows[edit.row as int] },
            Column::Pinyin => RowText { pinyin: edit.text@, ..rows[edit.row as int] },
        },
        cells_changed(rows, edits + more) == cells_changed(cells_changed(rows, edits), more),
    decreases more.len(),
{
    let one = seq![edit];
    assert(one.drop_last() =~= Seq::empty());
    assert(one.last() == edit);
    assert(cells_changed(rows, Seq::empty()) == rows);
    if more.len() == 0 {
        assert(edits + more =~= edits);
    } else {
        assert((edits + more).drop_last() =~= edits + more.drop_last());
        assert((edits + more).last() == more.last());
        law_cells_are_changed(rows, edits, edit, more.drop_last());
    }
}

/// What is done to the table is done in this order: cells are changed, a row goes, a row moves.
pub proof fn law_table_is_changed_in_order(
    state: EditorText,
    edits: Seq<CellEdit>,
    removed: Option<usize>,
    movement: Option<(usize, usize)>,
)
    ensures
        rows_changed(state.words, edits, None, None) == cells_changed(state.words, edits),
        removed matches Some(place) ==> rows_changed(state.words, edits, removed, None)
            == cells_changed(state.words, edits).remove(place as int),
        movement matches Some((from, to)) ==> rows_changed(state.words, edits, removed, movement)
            == moved(rows_changed(state.words, edits, removed, None), from as int, to as int),
        changed(state, edits, removed, movement) == (EditorText {
            unsaved: true,
            ..rebuilt(
                EditorText {
                    words: rows_changed(state.words, edits, removed, movement),
                    ..state
                },
            )
        }),
{
}

// Files

/// A text that was read is shown with its path, and its encoding is named unless it is UTF-8; an
/// error is shown and nothing else changes.
pub proof fn law_text_is_opened(
    state: EditorText,
    path: PathText,
    read: Result<(Seq<char>, Seq<char>), Seq<char>>,
)
    ensures
        source_loaded(state, path, read) == match read {
            Ok((text, encoding)) => EditorText {
                source_text: text,
                source_path: Some(path),
                screen: Screen::Source,
                status: if encoding == "UTF-8"@ {
                    "已打开："@ + path.text
                } else {
                    "已按 "@ + encoding + " 解码打开："@ + path.text
                },
                status_is_error: false,
                ..state
            },
            Err(error) => EditorText { status: error, status_is_error: true, ..state },
        },
{
}

/// Clearing takes the text, the rows and all that was made of them away, and the filter; options and
/// the segmenter stay.
pub proof fn law_clearing_keeps_the_options(state: EditorText)
    ensures
        cleared(state).source_text.len() == 0,
        cleared(state).source_path is None,
        cleared(state).words.len() == 0,
        cleared(state).encoded.len() == 0,
        cleared(state).conflicts.len() == 0,
        cleared(state).output_text.len() == 0,
        cleared(state).words_options is None,
        cleared(state).search.len() == 0,
        !cleared(state).only_errors,
        !cleared(state).unsaved,
        cleared(state).screen is Source,
        cleared(state).status == "已清空原文和已生成的词表。"@,
        !cleared(state).status_is_error,
        cleared(state) == (EditorText {
            source_text: cleared(state).source_text,
            source_path: None,
            words: cleared(state).words,
            encoded: cleared(state).encoded,
            conflicts: cleared(state).conflicts,
            output_text: cleared(state).output_text,
            words_options: None,
            search: cleared(state).search,
            only_errors: false,
            unsaved: false,
            screen: Screen::Source,
            status: cleared(state).status,
            status_is_error: false,
            ..state
        }),
{
}

/// All entries of a word list that was read are put into the table, also those with errors, which
/// are counted and shown alone if there are any; an error in reading is shown and nothing else
/// changes.
pub proof fn law_list_is_opened(
    state: EditorText,
    path: PathText,
    read: Result<(Seq<char>, Seq<char>), Seq<char>>,
)
    ensures
        match read {
            Ok((text, encoding)) => {
                let result = list_loaded(state, path, read);
                let rows = replaced(state, word_entries(text));
                let errors = error_total(rows.words);
                result == (EditorText {
                    words_options: None,
                    screen: Screen::Words,
                    only_errors: state.only_errors || errors > 0,
                    status_is_error: errors > 0,
                    status: if errors > 0 {
                        "已导入 "@ + decimal(word_entries(text).len()) + " 个词语，其中 "@ + decimal(
                            errors,
                        ) + " 行有问题（已切换到“只看错误”）："@ + path.text
                    } else {
                        "已导入 "@ + decimal(word_entries(text).len()) + " 个词语："@ + path.text
                    },
                    ..rows
                })
            },
            Err(error) => list_loaded(state, path, read) == (EditorText {
                status: error,
                status_is_error: true,
                ..state
            }),
        },
{
}

/// A dictionary with errors is not exported: they are counted and shown alone. One without entries
/// is not exported either.
pub proof fn law_export_needs_valid_rows(state: EditorText)
    ensures
        error_total(rebuilt(state).words) > 0 ==> export_prepared(state) == (EditorText {
            screen: Screen::Words,
            only_errors: true,
            status: "仍有 "@ + decimal(error_total(rebuilt(state).words))
                + " 行错误，请修正后再导出最终码表。"@,
            status_is_error: true,
            ..rebuilt(state)
        }),
        error_total(rebuilt(state).words) == 0 && rebuilt(state).encoded.len() == 0
            ==> export_prepared(state) == (EditorText {
            status: "当前没有可导出的词语。"@,
            status_is_error: true,
            ..rebuilt(state)
        }),
        error_total(rebuilt(state).words) == 0 && rebuilt(state).encoded.len() > 0
            ==> export_prepared(state) == rebuilt(state),
{
}

/// The settings of the input method are put before the dictionary or taken away as is asked for; the
/// same choice again changes nothing.
pub proof fn law_header_is_put_before_the_dictionary(state: EditorText, with_flypy_header: bool)
    ensures
        header_set(state, with_flypy_header).with_flypy_header == with_flypy_header,
        with_flypy_header == state.with_flypy_header ==> header_set(state, with_flypy_header)
            == state,
        with_flypy_header != state.with_flypy_header ==> header_set(state, with_flypy_header)
            == rebuilt((EditorText { with_flypy_header, ..state })),
        with_flypy_header != state.with_flypy_header ==> header_set(
            state,
            with_flypy_header,
        ).output_text == dictionary_text(
            header_set(state, with_flypy_header).encoded,
            with_flypy_header,
        ),
{
}

/// A file that is dropped is a word list if its name ends in `tsv`, in capitals or not, and a text
/// otherwise.
pub proof fn law_dropped_file_goes_by_its_name(
    state: EditorText,
    path: PathText,
    name: Seq<char>,
    read: Result<(Seq<char>, Seq<char>), Seq<char>>,
)
    ensures
        names_list(Some(name)) <==> {
            &&& name.len() == 3
            &&& name[0] == 't' || name[0] == 'T'
            &&& name[1] == 's' || name[1] == 'S'
            &&& name[2] == 'v' || name[2] == 'V'
        },
        names_list(Some(name)) ==> dropped(state, path, Some(name), read) == list_loaded(
            state,
            path,
            read,
        ),
        !names_list(Some(name)) ==> dropped(state, path, Some(name), read) == source_loaded(
            state,
            path,
            read,
        ),
        dropped(state, path, None, read) == source_loaded(state, path, read),
{
    reveal_strlit("tsv");
    let lower = lower_plain(name);
    if lower == "tsv"@ {
        assert(lower.len() == 3);
        assert(name.len() == 3);
        assert(lower[0] == 't' && lower[1] == 's' && lower[2] == 'v');
        assert(lower[0] == lower_char(name[0]));
        assert(lower[1] == lower_char(name[1]));
        assert(lower[2] == lower_char(name[2]));
    }
    if name.len() == 3 && (name[0] == 't' || name[0] == 'T') && (name[1] == 's' || name[1] == 'S')
        && (name[2] == 'v' || name[2] == 'V') {
        assert(lower =~= "tsv"@);
    }
}

/// Bytes that are no text in any encoding are refused, with the path; others are their text.
pub proof fn law_file_is_text_or_refused(path: Seq<char>, bytes: Seq<u8>)
    ensures
        match decoded_text(bytes) {
            Some(text) => file_text(path, bytes) == Ok::<(Seq<char>, Seq<char>), Seq<char>>(text),
            None => file_text(path, bytes) == Err::<(Seq<char>, Seq<char>), Seq<char>>(
                "无法识别文件 "@ + path + " 的编码，请另存为 UTF-8 后重试。"@,
            ),
        },
{
}

/// Only writing that succeeded counts as saved; the rows, the dictionary and the report stay as they
/// are, whether it did or not.
pub proof fn law_only_success_counts_as_saved(
    state: EditorText,
    message: Seq<char>,
    written: Result<(), Seq<char>>,
)
    ensures
        written is Ok ==> !written_out(state, message, written).unsaved,
        written is Err ==> written_out(state, message, written).unsaved == state.unsaved,
        written_out(state, message, written) == (EditorText {
            unsaved: written_out(state, message, written).unsaved,
            status: match written {
                Ok(_) => message,
                Err(error) => error,
            },
            status_is_error: written is Err,
            ..state
        }),
{
}

/// Rows that were added, changed or read in and not saved keep the window open until it is clear
/// what becomes of them: they are given up, or they have been saved. Without such rows nothing
/// keeps it open, nor after it was confirmed once.
pub proof fn law_unsaved_rows_keep_the_window_open(
    state: EditorText,
    edits: Seq<CellEdit>,
    removed: Option<usize>,
    movement: Option<(usize, usize)>,
    entries: Seq<WordText>,
)
    ensures
        !state.exit_confirmed ==> {
            &&& waits_for_answer(changed(state, edits, removed, movement), true)
            &&& waits_for_answer(row_added(state), true)
            &&& entries.len() > 0 ==> waits_for_answer(replaced(state, entries), true)
        },
        state.unsaved ==> !closes_on(state, ExitAnswer::Saved),
        !state.unsaved ==> closes_on(state, ExitAnswer::Saved) && !waits_for_answer(state, true),
        closes_on(state, ExitAnswer::Leave),
        !closes_on(state, ExitAnswer::Stay),
        !waits_for_answer(state, false),
        !waits_for_answer(cleared(state), true),
{
}

/// After an answer by which the window closes it is not held again; to stay only takes the question
/// away, and rows that could not be saved leave it standing.
pub proof fn law_answer_is_given_once(state: EditorText, answer: ExitAnswer)
    ensures
        closes_on(state, answer) ==> !waits_for_answer(answered(state, answer), true),
        answer is Leave || answer is Stay || !state.unsaved ==> !answered(
            state,
            answer,
        ).exit_prompt,
        answer is Saved && state.unsaved ==> answered(state, answer) == state,
        answered(state, answer) == (EditorText {
            exit_prompt: answered(state, answer).exit_prompt,
            exit_confirmed: state.exit_confirmed || closes_on(state, answer),
            ..state
        }),
{
}

// Segmentation

/// Words are not stale when they were found with the options that are set; they are when any of
/// these is another. Rows that were not segmented are never stale.
pub proof fn law_words_are_stale_after_a_change(
    state: EditorText,
    entries: Seq<FrequencyText>,
    other: EditorText,
)
    requires
        other.words_options == Some(set_options(state)),
    ensures
        !is_stale(words_found(state, entries, set_options(state))),
        state.words_options is None ==> !is_stale(state),
        is_stale(other) <==> {
            ||| other.min_frequency != state.min_frequency
            ||| other.include_single_chars != state.include_single_chars
            ||| other.hmm != state.hmm
            ||| other.user_dict is Some != state.user_dict is Some
            ||| other.user_dict is Some && state.user_dict is Some && other.user_dict->0.key
                != state.user_dict->0.key
        },
{
}

/// A run is started if none goes on and there is more than white space in the text; starting again
/// before it ends changes nothing. The segmenter that was kept is used again if it was made with
/// the dictionary that is set.
pub proof fn law_run_is_started_once(state: EditorText)
    ensures
        state.segmenting ==> started(state) == state,
        !state.segmenting && trimmed(state.source_text).len() == 0 ==> started(state)
            == (EditorText { status: "原文为空，无法分词。"@, status_is_error: true, ..state }),
        !state.segmenting && trimmed(state.source_text).len() > 0 ==> started(state)
            == (EditorText {
            segmenting: true,
            status: "正在分词，请稍候……"@,
            status_is_error: false,
            ..state
        }),
        started(started(state)) == started(state),
        has_right_segmenter(state) <==> state.has_segmenter && {
            ||| state.segmenter_dict is None && state.user_dict is None
            ||| state.segmenter_dict is Some && state.user_dict is Some
                && state.segmenter_dict->0.key == state.user_dict->0.key
        },
{
}

/// Each word that was found is put into a row of its own with its frequency and without pinyin; the
/// dictionary and the options that were used are kept in mind.
pub proof fn law_found_words_are_shown(
    state: EditorText,
    entries: Seq<FrequencyText>,
    options: OptionsText,
)
    requires
        has_ids(state, entries.len()),
    ensures
        segmented(entries).len() == entries.len(),
        forall|i: int|
            0 <= i < entries.len() ==> {
                &&& (#[trigger] segmented(entries)[i]).word == entries[i].word
                &&& segmented(entries)[i].frequency == Some(entries[i].frequency)
                &&& segmented(entries)[i].pinyin is None
            },
        words_found(state, entries, options) == (EditorText {
            screen: Screen::Words,
            status: "分词完成，共得到 "@ + decimal(entries.len()) + " 个词语。"@,
            status_is_error: false,
            ..replaced(
                EditorText {
                    segmenting: false,
                    has_segmenter: true,
                    segmenter_dict: options.user_dict,
                    words_options: Some(options),
                    ..state
                },
                segmented(entries),
            )
        }),
{
}

/// A run that goes on changes nothing; one that was lost or has failed leaves all but the message as
/// it was; one that is done shows its words.
pub proof fn law_run_comes_to_an_end(state: EditorText, event: SegmentEvent)
    ensures
        match event {
            SegmentEvent::Pending => polled(state, event) == state,
            SegmentEvent::Lost => polled(state, event) == (EditorText {
                segmenting: false,
                status: "分词任务意外结束，请重试。"@,
                status_is_error: true,
                ..state
            }),
            SegmentEvent::Failed(error) => polled(state, event) == (EditorText {
                segmenting: false,
                status: error@,
                status_is_error: true,
                ..state
            }),
            SegmentEvent::Ready { entries, options } => polled(state, event) == words_found(
                state,
                views(entries@),
                options@,
            ),
        },
{
}

} // verus!
