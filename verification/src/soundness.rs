//! What holds of the editor whenever its output has been built: at the start, and after every
//! action that changes rows and builds the output of them, or changes neither. `Editor::move_row`
//! is but a step of such an action: until `Editor::rebuild_output` the dictionary and the report
//! keep the old order.

use crate::conflict::{conflicts_of, ConflictText};
use crate::editable::{fresh_row, RowText};
use crate::editor::{
    cells_changed, changed, cleared, export_prepared, has_ids, initial_state, list_loaded, polled,
    rebuilt, replaced, row_added, rows_changed, rows_of, segmented, source_loaded, CellEdit,
    EditorText, PathText, SegmentEvent,
};
use crate::encode::dictionary_text;
use crate::entry::{EncodedText, WordText};
use crate::rows::{
    checked_rows, law_checked_row_is_valid_or_not, law_checking_again_changes_nothing, moved,
    valid_entries,
};
use crate::text::views;
use crate::word_list::{numbered_entries, word_entries};
use vstd::prelude::*;

verus! {

/// Whether no two rows have the same identifier, and none has one that is still to be given.
pub open spec fn ids_differ(rows: Seq<RowText>, next_id: u64) -> bool {
    &&& forall|i: int| 0 <= i < rows.len() ==> (#[trigger] rows[i]).id < next_id
    &&& forall|i: int, j: int|
        0 <= i < j < rows.len() ==> (#[trigger] rows[i]).id != (#[trigger] rows[j]).id
}

/// Whether the rows have been checked as they are, and the dictionary and the report are made of
/// them. As long as there are no rows the dictionary may be missing altogether.
pub open spec fn is_current(state: EditorText) -> bool {
    &&& state.words == checked_rows(state.words)
    &&& state.encoded == valid_entries(state.words)
    &&& state.conflicts == conflicts_of(state.encoded)
    &&& state.output_text == dictionary_text(state.encoded, state.with_flypy_header) || (
    state.words.len() == 0 && state.output_text.len() == 0)
}

/// What holds of the editor whenever its output has been built.
pub open spec fn is_sound(state: EditorText) -> bool {
    is_current(state) && ids_differ(state.words, state.next_word_id)
}

proof fn lemma_no_conflicts_without_entries()
    ensures
        conflicts_of(Seq::<EncodedText>::empty()) == Seq::<ConflictText>::empty(),
{
    let none = Seq::<EncodedText>::empty();
    let list = Seq::<ConflictText>::empty();
    assert(crate::conflict::are_conflicts(list, none));
    crate::conflict::law_conflicts_are_determined(list, conflicts_of(none), none);
}

proof fn lemma_empty_state_is_sound(state: EditorText)
    requires
        state.words.len() == 0,
        state.encoded.len() == 0,
        state.conflicts.len() == 0,
        state.output_text.len() == 0,
    ensures
        is_sound(state),
{
    assert(state.words =~= checked_rows(state.words));
    assert(state.encoded =~= Seq::empty());
    assert(state.conflicts =~= Seq::empty());
    lemma_no_conflicts_without_entries();
}

/// The editor starts in a sound state.
pub proof fn law_initial_state_is_sound()
    ensures
        is_sound(initial_state()),
{
    lemma_empty_state_is_sound(initial_state());
}

/// Building makes every state current, and building again changes nothing.
pub proof fn law_rebuilt_state_is_current(state: EditorText)
    ensures
        is_current(rebuilt(state)),
        rebuilt(rebuilt(state)) == rebuilt(state),
        ids_differ(state.words, state.next_word_id) ==> is_sound(rebuilt(state)),
{
    law_checking_again_changes_nothing(state.words);
    let built = rebuilt(state);
    assert forall|i: int| 0 <= i < state.words.len() implies (#[trigger] built.words[i]).id
        == state.words[i].id by {
        law_checked_row_is_valid_or_not(state.words, i);
    }
    if ids_differ(state.words, state.next_word_id) {
        assert(ids_differ(built.words, built.next_word_id)) by {
            assert forall|i: int, j: int| 0 <= i < j < built.words.len() implies (
            #[trigger] built.words[i]).id != (#[trigger] built.words[j]).id by {
                assert(state.words[i].id != state.words[j].id);
            }
        }
    }
}

/// New rows are sound, and none has an identifier that was given before.
pub proof fn law_replaced_rows_are_sound(state: EditorText, entries: Seq<WordText>)
    requires
        has_ids(state, entries.len()),
    ensures
        is_sound(replaced(state, entries)),
        replaced(state, entries).words.len() == entries.len(),
        forall|i: int|
            0 <= i < entries.len() ==> (#[trigger] replaced(state, entries).words[i]).id
                >= state.next_word_id,
{
    let first = state.next_word_id;
    let rows = rows_of(entries, first);
    let next = (first + entries.len()) as u64;
    let start = EditorText { words: rows, next_word_id: next, ..state };
    assert forall|i: int| 0 <= i < rows.len() implies (#[trigger] rows[i]).id == first + i by {}
    assert(ids_differ(rows, next));
    law_rebuilt_state_is_current(start);
    let after = replaced(state, entries);
    assert(after.words == rebuilt(start).words);
    assert forall|i: int| 0 <= i < entries.len() implies (#[trigger] after.words[i]).id
        >= first by {
        law_checked_row_is_valid_or_not(rows, i);
        assert(rows[i].id == first + i);
    }
}

/// A row that is added keeps the state sound.
pub proof fn law_added_row_is_sound(state: EditorText)
    requires
        is_sound(state),
        has_ids(state, 1),
    ensures
        is_sound(row_added(state)),
{
    let row = fresh_row(state.next_word_id, Seq::empty(), Seq::empty(), Seq::empty());
    let next = (state.next_word_id + 1) as u64;
    let start = EditorText { words: state.words.push(row), next_word_id: next, ..state };
    assert(ids_differ(start.words, next)) by {
        assert forall|i: int, j: int| 0 <= i < j < start.words.len() implies (
        #[trigger] start.words[i]).id != (#[trigger] start.words[j]).id by {
            assert(start.words[i] == state.words[i]);
            if j < state.words.len() {
                assert(start.words[j] == state.words[j]);
            }
        }
    }
    law_rebuilt_state_is_current(start);
}

proof fn lemma_cells_keep_ids(rows: Seq<RowText>, edits: Seq<CellEdit>)
    requires
        forall|k: int| 0 <= k < edits.len() ==> (#[trigger] edits[k]).row < rows.len(),
    ensures
        cells_changed(rows, edits).len() == rows.len(),
        forall|i: int|
            0 <= i < rows.len() ==> (#[trigger] cells_changed(rows, edits)[i]).id == rows[i].id,
    decreases edits.len(),
{
    if edits.len() > 0 {
        let before = edits.drop_last();
        assert forall|k: int| 0 <= k < before.len() implies (#[trigger] before[k]).row
            < rows.len() by {
            assert(before[k] == edits[k]);
        }
        lemma_cells_keep_ids(rows, before);
        assert(edits[edits.len() - 1].row < rows.len());
    }
}

proof fn lemma_moved_keeps_ids(rows: Seq<RowText>, from: int, to: int, next: u64)
    requires
        ids_differ(rows, next),
        0 <= from,
        0 <= to,
    ensures
        ids_differ(moved(rows, from, to), next),
{
    if from < rows.len() {
        let rest = rows.remove(from);
        let place = if to < rest.len() {
            to
        } else {
            rest.len() as int
        };
        let after = moved(rows, from, to);
        assert(after == rest.insert(place, rows[from]));
        let origin = |i: int|
            if i == place {
                from
            } else {
                let k = if i < place {
                    i
                } else {
                    i - 1
                };
                if k < from {
                    k
                } else {
                    k + 1
                }
            };
        assert forall|i: int| 0 <= i < after.len() implies #[trigger] after[i] == rows[origin(
            i,
        )] && 0 <= origin(i) < rows.len() by {}
        assert forall|i: int| 0 <= i < after.len() implies (#[trigger] after[i]).id < next by {
            assert(rows[origin(i)].id < next);
        }
        assert forall|i: int, j: int| 0 <= i < j < after.len() implies (#[trigger] after[i]).id
            != (#[trigger] after[j]).id by {
            assert(origin(i) != origin(j));
            if origin(i) < origin(j) {
                assert(rows[origin(i)].id != rows[origin(j)].id);
            } else {
                assert(rows[origin(j)].id != rows[origin(i)].id);
            }
        }
    }
}

proof fn lemma_removed_keeps_ids(rows: Seq<RowText>, place: int, next: u64)
    requires
        ids_differ(rows, next),
        0 <= place < rows.len(),
    ensures
        ids_differ(rows.remove(place), next),
{
    let rest = rows.remove(place);
    let origin = |i: int|
        if i < place {
            i
        } else {
            i + 1
        };
    assert forall|i: int| 0 <= i < rest.len() implies (#[trigger] rest[i]).id < next by {
        assert(rest[i] == rows[origin(i)]);
    }
    assert forall|i: int, j: int| 0 <= i < j < rest.len() implies (#[trigger] rest[i]).id != (
    #[trigger] rest[j]).id by {
        assert(rest[i] == rows[origin(i)] && rest[j] == rows[origin(j)]);
    }
}

proof fn lemma_rows_changed_keep_ids(
    rows: Seq<RowText>,
    edits: Seq<CellEdit>,
    removed: Option<usize>,
    movement: Option<(usize, usize)>,
    next: u64,
)
    requires
        ids_differ(rows, next),
        forall|k: int| 0 <= k < edits.len() ==> (#[trigger] edits[k]).row < rows.len(),
        removed matches Some(place) ==> place < rows.len(),
    ensures
        ids_differ(rows_changed(rows, edits, removed, movement), next),
{
    let edited = cells_changed(rows, edits);
    lemma_cells_keep_ids(rows, edits);
    assert forall|i: int| 0 <= i < edited.len() implies (#[trigger] edited[i]).id < next by {
        assert(rows[i].id < next);
    }
    assert forall|i: int, j: int| 0 <= i < j < edited.len() implies (#[trigger] edited[i]).id != (
    #[trigger] edited[j]).id by {
        assert(rows[i].id != rows[j].id);
    }
    assert(ids_differ(edited, next));
    let rest = match removed {
        Some(place) => edited.remove(place as int),
        None => edited,
    };
    if let Some(place) = removed {
        lemma_removed_keeps_ids(edited, place as int, next);
    }
    if let Some((from, to)) = movement {
        lemma_moved_keeps_ids(rest, from as int, to as int, next);
    }
}

/// What is done to the table keeps the state sound, and rows keep their identifiers.
pub proof fn law_changed_table_is_sound(
    state: EditorText,
    edits: Seq<CellEdit>,
    removed: Option<usize>,
    movement: Option<(usize, usize)>,
)
    requires
        is_sound(state),
        forall|k: int| 0 <= k < edits.len() ==> (#[trigger] edits[k]).row < state.words.len(),
        removed matches Some(place) ==> place < state.words.len(),
    ensures
        is_sound(changed(state, edits, removed, movement)),
{
    lemma_rows_changed_keep_ids(state.words, edits, removed, movement, state.next_word_id);
    let start = EditorText { words: rows_changed(state.words, edits, removed, movement), ..state };
    law_rebuilt_state_is_current(start);
}

/// Opening files, clearing and preparing an export keep the state sound.
pub proof fn law_files_keep_the_state_sound(
    state: EditorText,
    path: PathText,
    read: Result<(Seq<char>, Seq<char>), Seq<char>>,
)
    requires
        is_sound(state),
        read matches Ok((text, _)) ==> has_ids(state, numbered_entries(text).len()),
    ensures
        is_sound(source_loaded(state, path, read)),
        is_sound(list_loaded(state, path, read)),
        is_sound(cleared(state)),
        is_sound(export_prepared(state)),
{
    if let Ok((text, _)) = read {
        law_replaced_rows_are_sound(state, word_entries(text));
    }
    lemma_empty_state_is_sound(cleared(state));
    law_rebuilt_state_is_current(state);
}

/// What the segmenter has come to keeps the state sound.
pub proof fn law_segmentation_keeps_the_state_sound(state: EditorText, event: SegmentEvent)
    requires
        is_sound(state),
        event matches SegmentEvent::Ready { entries, .. } ==> has_ids(state, entries@.len()),
    ensures
        is_sound(polled(state, event)),
{
    if let SegmentEvent::Ready { entries, options } = event {
        let start = EditorText {
            segmenting: false,
            has_segmenter: true,
            segmenter_dict: options@.user_dict,
            words_options: Some(options@),
            ..state
        };
        law_replaced_rows_are_sound(start, segmented(views(entries@)));
    }
}

/// An export goes ahead only if every row is in the dictionary, in its place, with its code.
pub proof fn law_export_has_every_row(state: EditorText)
    requires
        crate::rows::error_total(rebuilt(state).words) == 0,
    ensures
        rebuilt(state).encoded.len() == state.words.len(),
        forall|i: int|
            0 <= i < state.words.len() ==> (#[trigger] rebuilt(state).encoded[i]).code
                == rebuilt(state).words[i].code && rebuilt(state).words[i].error is None,
{
    crate::rows::law_rows_are_entries_or_errors(state.words);
    let built = rebuilt(state);
    assert forall|i: int| 0 <= i < state.words.len() implies (#[trigger] built.encoded[i]).code
        == built.words[i].code && built.words[i].error is None by {
        assert(Some(valid_entries(checked_rows(state.words))[i]) == crate::rows::row_code(
            checked_rows(state.words)[i],
        ));
        law_checked_row_is_valid_or_not(state.words, i);
    }
}

} // verus!
