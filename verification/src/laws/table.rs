//! What the rows of the table stand for, how they are checked, searched and moved.

use crate::editable::{
    refreshed, row_encoding, row_entry, row_line, row_lines, row_of_entry, rows_text, RowText,
};
use crate::encode::encoded_entry;
use crate::entry::{EncodedText, WordText};
use crate::foreign::lowercase;
use crate::laws::lines::{typed_list, typed_pinyin};
use crate::laws::texts::{
    law_only_empty_pieces_are_left_out, law_trimming_cuts_white_space_off,
};
use crate::preview::{is_preview, law_preview_fills_its_lines, line_count};
use crate::rows::{
    around_place, checked_rows, error_total, is_duplicate, law_visible_rows_are_those_found, moved,
    needle_of, row_code, valid_entries, visible_places,
};
use crate::text::{decimal, is_white_space, joined, number_value, occurs_in, pieces, trimmed, CharClass};
use vstd::prelude::*;

verus! {

// Rows and entries

/// An entry is revised in a row that shows its word, its frequency in digits and its syllables with
/// single spaces between them, and that has not been encoded.
pub proof fn law_row_shows_its_entry(id: u64, entry: WordText)
    ensures
        row_of_entry(id, entry).id == id,
        row_of_entry(id, entry).word == entry.word,
        match entry.frequency {
            Some(number) => row_of_entry(id, entry).frequency == decimal(number as nat),
            None => row_of_entry(id, entry).frequency.len() == 0,
        },
        match entry.pinyin {
            Some(list) => row_of_entry(id, entry).pinyin == joined(list, seq![' ']),
            None => row_of_entry(id, entry).pinyin.len() == 0,
        },
        row_of_entry(id, entry).code.len() == 0,
        row_of_entry(id, entry).error is None,
        row_of_entry(id, entry).cached is None,
{
    reveal_strlit(" ");
    assert(" "@ =~= seq![' ']);
}

/// A row stands for its word without the white space around it, for the number in its frequency if
/// there is something, and for all syllables in its pinyin. It stands for nothing only if its word
/// is blank or its frequency is neither blank nor a number.
pub proof fn law_row_stands_for_what_is_typed(row: RowText)
    ensures
        trimmed(row.word).len() == 0 ==> row_entry(row) == Err::<WordText, Seq<char>>(
            "词语不能为空"@,
        ),
        trimmed(row.word).len() > 0 && trimmed(row.frequency).len() > 0 && number_value(
            trimmed(row.frequency),
        ) is None ==> row_entry(row) == Err::<WordText, Seq<char>>("词频必须是非负整数"@),
        trimmed(row.word).len() > 0 && trimmed(row.frequency).len() == 0 ==> row_entry(row) == Ok::<
            WordText,
            Seq<char>,
        >(
            WordText {
                word: trimmed(row.word),
                frequency: None,
                pinyin: typed_pinyin(typed_list(row.pinyin)),
            },
        ),
        trimmed(row.word).len() > 0 && number_value(trimmed(row.frequency)) is Some ==> row_entry(
            row,
        ) == Ok::<WordText, Seq<char>>(
            WordText {
                word: trimmed(row.word),
                frequency: number_value(trimmed(row.frequency)),
                pinyin: typed_pinyin(typed_list(row.pinyin)),
            },
        ),
{
    law_only_empty_pieces_are_left_out(pieces(row.pinyin, CharClass::SyllableSeparator));
    if trimmed(row.frequency).len() == 0 {
        crate::laws::texts::law_other_text_is_no_number(trimmed(row.frequency), 0);
    }
}

/// A row is encoded as the entry that it stands for, and what keeps it from standing for one keeps
/// it from being encoded.
pub proof fn law_row_is_encoded_as_its_entry(row: RowText)
    ensures
        match row_entry(row) {
            Ok(entry) => row_encoding(row) == encoded_entry(entry),
            Err(message) => row_encoding(row) == Err::<EncodedText, Seq<char>>(message),
        },
{
}

/// Looking at the encoding of a row leaves alone all that is shown; it is made anew exactly if
/// there is none, or if the key is not that of the word, the frequency and the pinyin.
pub proof fn law_encoding_is_made_once(row: RowText)
    ensures
        refreshed(row).id == row.id,
        refreshed(row).word == row.word,
        refreshed(row).frequency == row.frequency,
        refreshed(row).pinyin == row.pinyin,
        refreshed(row).code == row.code,
        refreshed(row).error == row.error,
        refreshed(row).cache_key == row.word + seq!['\u{1}'] + row.frequency + seq!['\u{1}']
            + row.pinyin,
        refreshed(row).cached == if row.cached is None || row.cache_key != row.word + seq!['\u{1}']
            + row.frequency + seq!['\u{1}'] + row.pinyin {
            Some(row_encoding(row))
        } else {
            row.cached
        },
{
}

// Checking

/// A checked row whose word is blank says so; one whose word is in another row says that; any other
/// shows the code, or the error, of its encoding. The fields that are typed stay.
pub proof fn law_row_is_checked(rows: Seq<RowText>, i: int)
    requires
        0 <= i < rows.len(),
    ensures
        checked_rows(rows).len() == rows.len(),
        checked_rows(rows)[i].id == rows[i].id,
        checked_rows(rows)[i].word == rows[i].word,
        checked_rows(rows)[i].frequency == rows[i].frequency,
        checked_rows(rows)[i].pinyin == rows[i].pinyin,
        trimmed(rows[i].word).len() == 0 ==> {
            &&& checked_rows(rows)[i].error == Some("词语不能为空"@)
            &&& checked_rows(rows)[i].code.len() == 0
            &&& checked_rows(rows)[i].cached == rows[i].cached
            &&& checked_rows(rows)[i].cache_key == rows[i].cache_key
        },
        trimmed(rows[i].word).len() > 0 && (exists|j: int|
            0 <= j < rows.len() && j != i && trimmed((#[trigger] rows[j]).word) == trimmed(
                rows[i].word,
            )) ==> {
            &&& checked_rows(rows)[i].error == Some("词语重复"@)
            &&& checked_rows(rows)[i].code.len() == 0
            &&& checked_rows(rows)[i].cached == rows[i].cached
            &&& checked_rows(rows)[i].cache_key == rows[i].cache_key
        },
        trimmed(rows[i].word).len() > 0 && (forall|j: int|
            0 <= j < rows.len() && j != i ==> trimmed((#[trigger] rows[j]).word) != trimmed(
                rows[i].word,
            )) ==> {
            &&& checked_rows(rows)[i].cached == refreshed(rows[i]).cached
            &&& checked_rows(rows)[i].cache_key == refreshed(rows[i]).cache_key
            &&& checked_rows(rows)[i].cached is Some
            &&& match checked_rows(rows)[i].cached->0 {
                Ok(entry) => checked_rows(rows)[i].error is None && checked_rows(rows)[i].code
                    == entry.code,
                Err(message) => checked_rows(rows)[i].error == Some(message) && checked_rows(
                    rows,
                )[i].code.len() == 0,
            }
        },
{
    let again = refreshed(rows[i]);
    assert(again.cached is Some);
    if exists|j: int|
        0 <= j < rows.len() && j != i && trimmed((#[trigger] rows[j]).word) == trimmed(
            rows[i].word,
        ) {
        let j = choose|j: int|
            0 <= j < rows.len() && j != i && trimmed((#[trigger] rows[j]).word) == trimmed(
                rows[i].word,
            );
        assert(trimmed(rows[i].word).len() > 0 ==> is_duplicate(rows, i));
    } else {
        assert(!is_duplicate(rows, i));
    }
}

/// The valid entries are those of all rows without an error that have been encoded, in the order of
/// the rows; the errors are as many as the rows that have one.
pub proof fn law_valid_rows_are_taken(rows: Seq<RowText>)
    ensures
        valid_entries(rows) == rows.filter(
            |row: RowText| row.error is None && row.cached is Some && row.cached->0 is Ok,
        ).map_values(|row: RowText| row.cached->0->Ok_0),
        error_total(rows) == rows.filter(|row: RowText| row.error is Some).len(),
    decreases rows.len(),
{
    reveal(Seq::filter);
    let is_valid = |row: RowText| row.error is None && row.cached is Some && row.cached->0 is Ok;
    let entry_of = |row: RowText| row.cached->0->Ok_0;
    if rows.len() > 0 {
        law_valid_rows_are_taken(rows.drop_last());
        let last = rows.last();
        assert(row_code(last) is Some <==> is_valid(last));
        assert(valid_entries(rows) =~= rows.filter(is_valid).map_values(entry_of));
    } else {
        assert(valid_entries(rows) =~= rows.filter(is_valid).map_values(entry_of));
    }
}

// Searching and moving

/// The rows that are shown, in their order, are all those in which the search finds something: in
/// the word or the pinyin in lower case or in the code, and an empty search in each; of these only
/// the ones with an error, if no others are wanted.
pub proof fn law_rows_are_shown(rows: Seq<RowText>, needle: Seq<char>, only_errors: bool, place: int)
    ensures
        visible_places(rows, needle, only_errors).contains(place) <==> {
            &&& 0 <= place < rows.len()
            &&& only_errors ==> rows[place].error is Some
            &&& {
                ||| needle.len() == 0
                ||| occurs_in(needle, lowercase(rows[place].word))
                ||| occurs_in(needle, lowercase(rows[place].pinyin))
                ||| occurs_in(needle, rows[place].code)
            }
        },
        forall|i: int, j: int|
            0 <= i < j < visible_places(rows, needle, only_errors).len() ==> #[trigger] visible_places(
                rows,
                needle,
                only_errors,
            )[i] < #[trigger] visible_places(rows, needle, only_errors)[j],
{
    law_visible_rows_are_those_found(rows, needle, only_errors);
}

/// White space around what is searched for does not matter, and it is searched for in lower case.
pub proof fn law_search_is_without_white_space(
    before: Seq<char>,
    core: Seq<char>,
    after: Seq<char>,
)
    requires
        forall|i: int| 0 <= i < before.len() ==> is_white_space(#[trigger] before[i]),
        forall|i: int| 0 <= i < after.len() ==> is_white_space(#[trigger] after[i]),
        core.len() > 0 ==> !is_white_space(core[0]) && !is_white_space(core.last()),
    ensures
        needle_of(before + core + after) == lowercase(core),
{
    law_trimming_cuts_white_space_off(before, core, after);
}

/// The neighbours of a place are the items next to it; the first has none before it and the last
/// none after it.
pub proof fn law_neighbours_stand_next<A>(before: Seq<A>, a: A, b: A, after: Seq<A>)
    ensures
        around_place(before + seq![a, b] + after, before.len() as int).1 == Some(b),
        around_place(before + seq![a, b] + after, before.len() as int + 1).0 == Some(a),
        around_place(seq![a] + after, 0).0 is None,
        around_place(before + seq![a], before.len() as int).1 is None,
{
    let list = before + seq![a, b] + after;
    let n = before.len() as int;
    assert(list[n] == a && list[n + 1] == b);
}

/// A row that is moved leaves the others in their order and stands where it is to be, or at the
/// end; there is nothing to move from a place behind the last row.
pub proof fn law_moved_row_leaves_the_others<A>(list: Seq<A>, from: int, to: int)
    requires
        0 <= from,
        0 <= to,
    ensures
        from >= list.len() ==> moved(list, from, to) == list,
        from < list.len() ==> {
            let place = if to < list.len() {
                to
            } else {
                list.len() - 1
            };
            &&& moved(list, from, to).len() == list.len()
            &&& moved(list, from, to)[place] == list[from]
            &&& moved(list, from, to).remove(place) == list.remove(from)
        },
{
    if from < list.len() {
        let place = if to < list.len() {
            to
        } else {
            list.len() - 1
        };
        assert(moved(list, from, to).remove(place) =~= list.remove(from));
    }
}

// Writing

/// A table is written with one line for each row that has a word: the word, a tab, the frequency
/// and, if there is pinyin, a tab and the pinyin, each without the white space around it.
pub proof fn law_table_is_written_line_by_line(a: Seq<RowText>, b: Seq<RowText>, row: RowText)
    ensures
        rows_text(Seq::empty()) == "# 词语\t词频\t拼音（可选）\n"@,
        rows_text(a + b) == rows_text(a) + rows_text(b).skip(rows_text(Seq::empty()).len() as int),
        trimmed(row.word).len() == 0 ==> rows_text(seq![row]) == rows_text(Seq::empty()),
        trimmed(row.word).len() > 0 && trimmed(row.pinyin).len() == 0 ==> rows_text(seq![row])
            == rows_text(Seq::empty()) + trimmed(row.word) + seq!['\t'] + trimmed(row.frequency)
            + seq!['\n'],
        trimmed(row.word).len() > 0 && trimmed(row.pinyin).len() > 0 ==> rows_text(seq![row])
            == rows_text(Seq::empty()) + trimmed(row.word) + seq!['\t'] + trimmed(row.frequency)
            + seq!['\t'] + trimmed(row.pinyin) + seq!['\n'],
{
    let none = Seq::<RowText>::empty();
    let head = "# 词语\t词频\t拼音（可选）\n"@;
    assert(row_lines(none) =~= Seq::empty());
    assert(rows_text(none) =~= head);
    assert(seq![row].drop_last() =~= none);
    if trimmed(row.word).len() > 0 {
        assert(row_lines(seq![row]) =~= row_line(row) + seq!['\n']);
        if trimmed(row.pinyin).len() == 0 {
            assert(rows_text(seq![row]) =~= head + trimmed(row.word) + seq!['\t'] + trimmed(
                row.frequency,
            ) + seq!['\n']);
        } else {
            assert(rows_text(seq![row]) =~= head + trimmed(row.word) + seq!['\t'] + trimmed(
                row.frequency,
            ) + seq!['\t'] + trimmed(row.pinyin) + seq!['\n']);
        }
    }
    lemma_lines_of_both(a, b);
    assert(rows_text(b).skip(head.len() as int) =~= row_lines(b));
    assert(rows_text(a + b) =~= rows_text(a) + row_lines(b));
}

proof fn lemma_lines_of_both(a: Seq<RowText>, b: Seq<RowText>)
    ensures
        row_lines(a + b) == row_lines(a) + row_lines(b),
    decreases b.len(),
{
    if b.len() == 0 {
        assert(a + b =~= a);
        assert(row_lines(a) + row_lines(b) =~= row_lines(a));
    } else {
        assert((a + b).drop_last() =~= a + b.drop_last());
        assert((a + b).last() == b.last());
        lemma_lines_of_both(a, b.drop_last());
        assert(row_lines(a + b) =~= row_lines(a) + row_lines(b));
    }
}

// The preview

/// The lines of a text are as many as its line feeds, and one more if something stands after the
/// last of them.
pub proof fn law_lines_are_counted(text: Seq<char>)
    ensures
        line_count(text) == text.filter(|c: char| c == '\n').len() + if text.len() > 0
            && text.last() != '\n' {
            1nat
        } else {
            0
        },
    decreases text.len(),
{
    reveal(Seq::filter);
    if text.len() > 0 {
        law_lines_are_counted(text.drop_last());
    }
}

/// A preview is the whole text if that has no more lines than are wanted; otherwise it is the
/// beginning with as many line feeds, the last of them at its end.
pub proof fn law_preview_is_the_first_lines(part: Seq<char>, text: Seq<char>, max_lines: nat)
    requires
        is_preview(part, text, max_lines),
    ensures
        line_count(text) <= max_lines ==> part == text,
        line_count(text) > max_lines ==> {
            &&& part == text.take(part.len() as int)
            &&& part.len() < text.len()
            &&& part.filter(|c: char| c == '\n').len() == max_lines
            &&& part.len() > 0 ==> part.last() == '\n'
            &&& max_lines == 0 ==> part.len() == 0
        },
{
    law_preview_fills_its_lines(part, text, max_lines);
    law_lines_are_counted(part);
    if line_count(text) > max_lines {
        assert(part =~= text.take(part.len() as int));
        if part.len() == text.len() {
            assert(part =~= text);
        }
        let k = part.len() as int + 1;
        let next = text.take(k);
        assert(next.drop_last() =~= part);
        assert(line_count(next) > max_lines);
        if max_lines == 0 && part.len() > 0 {
            lemma_text_has_a_line(part);
        }
    }
}

proof fn lemma_text_has_a_line(text: Seq<char>)
    requires
        text.len() > 0,
    ensures
        line_count(text) > 0,
    decreases text.len(),
{
    if text.len() > 1 {
        lemma_text_has_a_line(text.drop_last());
    }
}

} // verus!
