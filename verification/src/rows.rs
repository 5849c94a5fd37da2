//! The table of rows: which of them are valid, which are shown, and how they move.

use crate::editable::{
    is_cache_true, law_refreshed_row_is_encoded, refreshed, row_encoding, row_entry, EditableWord,
    RowText,
};
use crate::entry::{EncodedEntry, EncodedText};
use crate::foreign::{lowercase, to_lowercase};
use crate::text::{contains_text, occurs_in, trim_text, trimmed, views};
use vstd::hash_map::StringHashMap;
use vstd::prelude::*;

verus! {

// Checking and encoding

/// Whether another row has the same word.
pub open spec fn is_duplicate(rows: Seq<RowText>, i: int) -> bool {
    trimmed(rows[i].word).len() > 0 && exists|j: int|
        0 <= j < rows.len() && j != i && trimmed((#[trigger] rows[j]).word) == trimmed(rows[i].word)
}

/// A row with an error in place of a code.
pub open spec fn with_error(row: RowText, message: Seq<char>) -> RowText {
    RowText { code: Seq::empty(), error: Some(message), ..row }
}

/// A row after it has been checked: it has a code, or an error that says why not.
pub open spec fn checked_row(row: RowText, duplicate: bool) -> RowText {
    if trimmed(row.word).len() == 0 {
        with_error(row, "词语不能为空"@)
    } else if duplicate {
        with_error(row, "词语重复"@)
    } else {
        match refreshed(row).cached {
            Some(Ok(entry)) => RowText { code: entry.code, error: None, ..refreshed(row) },
            Some(Err(message)) => with_error(refreshed(row), message),
            None => refreshed(row),
        }
    }
}

/// The rows after they have been checked.
pub open spec fn checked_rows(rows: Seq<RowText>) -> Seq<RowText> {
    Seq::new(rows.len(), |i: int| checked_row(rows[i], is_duplicate(rows, i)))
}

/// The entry of a checked row that is valid.
pub open spec fn row_code(row: RowText) -> Option<EncodedText> {
    if row.error is Some {
        None
    } else {
        match row.cached {
            Some(Ok(entry)) => Some(entry),
            _ => None,
        }
    }
}

/// The entries of the valid rows.
pub open spec fn valid_entries(rows: Seq<RowText>) -> Seq<EncodedText>
    decreases rows.len(),
{
    if rows.len() == 0 {
        Seq::empty()
    } else {
        match row_code(rows.last()) {
            Some(entry) => valid_entries(rows.drop_last()).push(entry),
            None => valid_entries(rows.drop_last()),
        }
    }
}

/// How many rows have an error.
pub open spec fn error_total(rows: Seq<RowText>) -> nat
    decreases rows.len(),
{
    if rows.len() == 0 {
        0
    } else {
        error_total(rows.drop_last()) + if rows.last().error is Some {
            1nat
        } else {
            0
        }
    }
}

/// An encoded entry that may be missing.
pub open spec fn optional_entry(entry: Option<EncodedEntry>) -> Option<EncodedText> {
    match entry {
        Some(entry) => Some(entry@),
        None => None,
    }
}

/// Marks the rows whose words occur in another row too.
fn find_duplicates(rows: &[EditableWord]) -> (flags: Vec<bool>)
    ensures
        flags@.len() == rows@.len(),
        forall|i: int| 0 <= i < rows@.len() ==> #[trigger] flags@[i] == is_duplicate(views(rows@), i),
{
    let mut flags: Vec<bool> = Vec::new();
    let mut places: StringHashMap<usize> = StringHashMap::new();
    let ghost all = views(rows@);
    for n in 0..rows.len()
        invariant
            all == views(rows@),
            flags@.len() == n,
            forall|i: int|
                0 <= i < n ==> #[trigger] flags@[i] == is_duplicate(all.take(n as int), i),
            forall|word: Seq<char>| #[trigger]
                places@.contains_key(word) ==> word.len() > 0 && places@[word] < n && trimmed(
                    all[places@[word] as int].word,
                ) == word,
            forall|i: int|
                0 <= i < n && trimmed((#[trigger] all[i]).word).len() > 0 ==> places@.contains_key(
                    trimmed(all[i].word),
                ),
            forall|i: int|
                0 <= i < n && trimmed((#[trigger] all[i]).word).len() > 0
                    && places@[trimmed(all[i].word)] != i ==> flags@[i],
    {
        let ghost before = all.take(n as int);
        let ghost after = all.take(n + 1);
        let ghost row = rows@[n as int]@;
        let ghost earlier = flags@;
        assert(after =~= before.push(row));
        let word: String = trim_text(rows[n].word.as_str());
        let ghost text = word@;
        if word.as_str().unicode_len() == 0 {
            flags.push(false);
            proof {
                assert(text.len() == 0);
                assert forall|i: int| 0 <= i < n + 1 implies #[trigger] flags@[i] == is_duplicate(
                    after,
                    i,
                ) by {
                    if i < n {
                        lemma_duplicate_by_last(all, n as int, i);
                    }
                }
            }
        } else {
            let known: Option<usize> = match places.get(word.as_str()) {
                Some(place) => Some(*place),
                None => None,
            };
            match known {
                Some(place) => {
                    flags.set(place, true);
                    flags.push(true);
                    proof {
                        assert(trimmed(after[place as int].word) == text);
                        assert(is_duplicate(after, n as int));
                        assert forall|i: int| 0 <= i < n + 1 implies #[trigger] flags@[i]
                            == is_duplicate(after, i) by {
                            if i < n {
                                lemma_duplicate_by_last(all, n as int, i);
                                assert(trimmed(all[i].word) == text && i != place ==> earlier[i]);
                            }
                        }
                    }
                },
                None => {
                    places.insert(word, n);
                    flags.push(false);
                    proof {
                        assert forall|i: int| 0 <= i < n implies trimmed((#[trigger] all[i]).word)
                            != text by {}
                        assert forall|i: int| 0 <= i < n + 1 implies #[trigger] flags@[i]
                            == is_duplicate(after, i) by {
                            if i < n {
                                lemma_duplicate_by_last(all, n as int, i);
                            } else if is_duplicate(after, n as int) {
                                let j = choose|j: int|
                                    0 <= j < after.len() && j != n && trimmed(
                                        (#[trigger] after[j]).word,
                                    ) == trimmed(after[n as int].word);
                                assert(after[j] == all[j]);
                            }
                        }
                    }
                },
            }
        }
    }
    assert(all.take(rows.len() as int) =~= all);
    flags
}

proof fn lemma_duplicate_by_last(rows: Seq<RowText>, n: int, i: int)
    requires
        0 <= i < n < rows.len(),
    ensures
        is_duplicate(rows.take(n + 1), i) <==> is_duplicate(rows.take(n), i) || (trimmed(
            rows[i].word,
        ).len() > 0 && trimmed(rows[n].word) == trimmed(rows[i].word)),
{
    let before = rows.take(n);
    let after = rows.take(n + 1);
    if is_duplicate(before, i) {
        let j = choose|j: int|
            0 <= j < before.len() && j != i && trimmed((#[trigger] before[j]).word) == trimmed(
                before[i].word,
            );
        assert(after[j] == before[j]);
    }
    if is_duplicate(after, i) {
        let j = choose|j: int|
            0 <= j < after.len() && j != i && trimmed((#[trigger] after[j]).word) == trimmed(
                after[i].word,
            );
        if j < n {
            assert(after[j] == before[j]);
        }
    }
    assert(after[n] == rows[n]);
}

/// Checks one row.
fn check_row(row: &mut EditableWord, duplicate: bool) -> (entry: Option<EncodedEntry>)
    ensures
        final(row)@ == checked_row(old(row)@, duplicate),
        optional_entry(entry) == row_code(final(row)@),
{
    row.code = String::new();
    let word: String = trim_text(row.word.as_str());
    if word.as_str().unicode_len() == 0 {
        row.error = Some("词语不能为空".to_owned());
        return None;
    }
    if duplicate {
        row.error = Some("词语重复".to_owned());
        return None;
    }
    row.error = None;
    let ghost before = row@;
    row.refresh_encoding();
    assert(row@ == refreshed(before));
    let mut code: String = String::new();
    let mut error: Option<String> = None;
    let mut valid: Option<EncodedEntry> = None;
    match &row.cached {
        Some(Ok(entry)) => {
            code = entry.code.clone();
            valid = Some(entry.clone());
        },
        Some(Err(message)) => {
            error = Some(message.clone());
        },
        None => {},
    }
    row.code = code;
    row.error = error;
    valid
}

/// Checks all rows and collects the entries of the valid ones.
pub fn check_rows(rows: &mut Vec<EditableWord>) -> (entries: Vec<EncodedEntry>)
    ensures
        views(final(rows)@) == checked_rows(views(old(rows)@)),
        views(entries@) == valid_entries(checked_rows(views(old(rows)@))),
{
    let flags: Vec<bool> = find_duplicates(rows);
    let ghost all = views(rows@);
    let ghost checked = checked_rows(all);
    let mut entries: Vec<EncodedEntry> = Vec::new();
    let count: usize = rows.len();
    assert(checked.take(0) =~= Seq::empty());
    assert(views(entries@) =~= Seq::empty());
    for n in 0..count
        invariant
            count == all.len(),
            rows@.len() == count,
            flags@.len() == count,
            forall|i: int| 0 <= i < count ==> #[trigger] flags@[i] == is_duplicate(all, i),
            checked == checked_rows(all),
            forall|i: int| 0 <= i < n ==> (#[trigger] rows@[i])@ == checked[i],
            forall|i: int| n <= i < count ==> (#[trigger] rows@[i])@ == all[i],
            views(entries@) == valid_entries(checked.take(n as int)),
    {
        assert(checked.take(n + 1).drop_last() =~= checked.take(n as int));
        assert(rows@[n as int]@ == all[n as int]);
        let ghost earlier = views(entries@);
        if let Some(entry) = check_row(&mut rows[n], flags[n]) {
            let ghost text = entry@;
            entries.push(entry);
            assert(views(entries@) =~= earlier.push(text));
        }
        assert(rows@[n as int]@ == checked[n as int]);
    }
    assert(checked.take(count as int) =~= checked);
    assert(views(rows@) =~= checked);
    entries
}

/// Counts the rows with an error.
pub fn count_errors(rows: &[EditableWord]) -> (count: usize)
    ensures
        count == error_total(views(rows@)),
{
    let mut count: usize = 0;
    let ghost all = views(rows@);
    assert(all.take(0) =~= Seq::empty());
    for i in 0..rows.len()
        invariant
            all == views(rows@),
            count <= i,
            count == error_total(all.take(i as int)),
    {
        assert(all.take(i + 1).drop_last() =~= all.take(i as int));
        assert(all.take(i + 1).last() == rows@[i as int]@);
        if rows[i].error.is_some() {
            count += 1;
        }
    }
    assert(all.take(rows.len() as int) =~= all);
    count
}

proof fn lemma_checked_rows_keep_duplicates(rows: Seq<RowText>, i: int)
    requires
        0 <= i < rows.len(),
    ensures
        is_duplicate(checked_rows(rows), i) == is_duplicate(rows, i),
{
    let checked = checked_rows(rows);
    assert forall|j: int| 0 <= j < rows.len() implies #[trigger] checked[j].word == rows[j].word by {}
    assert(checked[i].word == rows[i].word);
    if is_duplicate(rows, i) {
        let j = choose|j: int|
            0 <= j < rows.len() && j != i && trimmed((#[trigger] rows[j]).word) == trimmed(
                rows[i].word,
            );
        assert(checked[j].word == rows[j].word);
    }
    if is_duplicate(checked, i) {
        let j = choose|j: int|
            0 <= j < checked.len() && j != i && trimmed((#[trigger] checked[j]).word) == trimmed(
                checked[i].word,
            );
        assert(checked[j].word == rows[j].word);
    }
}

/// Checking rows that have been checked changes nothing.
pub proof fn law_checking_again_changes_nothing(rows: Seq<RowText>)
    ensures
        checked_rows(checked_rows(rows)) == checked_rows(rows),
{
    let checked = checked_rows(rows);
    assert forall|i: int| 0 <= i < rows.len() implies #[trigger] checked_rows(checked)[i]
        == checked[i] by {
        lemma_checked_rows_keep_duplicates(rows, i);
        assert(checked[i] == checked_row(rows[i], is_duplicate(rows, i)));
        lemma_checked_row_stays(rows[i], is_duplicate(rows, i));
    }
    assert(checked_rows(checked) =~= checked);
}

proof fn lemma_checked_row_stays(row: RowText, duplicate: bool)
    ensures
        checked_row(checked_row(row, duplicate), duplicate) == checked_row(row, duplicate),
        checked_row(row, duplicate).error is None <==> row_code(checked_row(row, duplicate))
            is Some,
        checked_row(row, duplicate).id == row.id,
        checked_row(row, duplicate).word == row.word,
{
    let checked = checked_row(row, duplicate);
    if trimmed(row.word).len() > 0 && !duplicate {
        assert(refreshed(row).cached is Some);
        assert(refreshed(checked) == checked);
    }
}

/// A checked row has an error, or a code and no error.
pub proof fn law_checked_row_is_valid_or_not(rows: Seq<RowText>, i: int)
    requires
        0 <= i < rows.len(),
    ensures
        checked_rows(rows)[i].error is None <==> row_code(checked_rows(rows)[i]) is Some,
        row_code(checked_rows(rows)[i]) matches Some(entry) ==> checked_rows(rows)[i].code
            == entry.code,
        checked_rows(rows)[i].error is Some ==> checked_rows(rows)[i].code.len() == 0,
        checked_rows(rows)[i].id == rows[i].id,
        checked_rows(rows)[i].word == rows[i].word,
        checked_rows(rows)[i].frequency == rows[i].frequency,
        checked_rows(rows)[i].pinyin == rows[i].pinyin,
{
    lemma_checked_row_stays(rows[i], is_duplicate(rows, i));
}

/// Both rows with the same word have an error.
pub proof fn law_duplicates_have_errors(rows: Seq<RowText>, i: int, j: int)
    requires
        0 <= i < rows.len(),
        0 <= j < rows.len(),
        i != j,
        trimmed(rows[i].word) == trimmed(rows[j].word),
    ensures
        checked_rows(rows)[i].error is Some,
        checked_rows(rows)[j].error is Some,
{
    assert(trimmed(rows[i].word).len() > 0 ==> is_duplicate(rows, i) && is_duplicate(rows, j));
}

/// A checked row says what its encoding is, if what was cached was right.
pub proof fn law_checked_row_is_current(rows: Seq<RowText>, i: int)
    requires
        0 <= i < rows.len(),
        is_cache_true(rows[i]),
        trimmed(rows[i].word).len() > 0,
        !is_duplicate(rows, i),
    ensures
        match row_encoding(rows[i]) {
            Ok(entry) => checked_rows(rows)[i].error is None && checked_rows(rows)[i].code
                == entry.code && row_code(checked_rows(rows)[i]) == Some(entry),
            Err(message) => checked_rows(rows)[i].error == Some(message),
        },
        is_cache_true(checked_rows(rows)[i]),
{
    law_refreshed_row_is_encoded(rows[i]);
    lemma_checked_row_stays(rows[i], is_duplicate(rows, i));
    let checked = checked_rows(rows)[i];
    assert(row_entry(checked) == row_entry(rows[i]));
}

/// Each checked row counts as an entry or as an error; without errors, the entries are those of
/// all rows, in their order.
pub proof fn law_rows_are_entries_or_errors(rows: Seq<RowText>)
    ensures
        valid_entries(checked_rows(rows)).len() + error_total(checked_rows(rows)) == rows.len(),
        error_total(checked_rows(rows)) == 0 ==> forall|i: int|
            0 <= i < rows.len() ==> Some(#[trigger] valid_entries(checked_rows(rows))[i])
                == row_code(checked_rows(rows)[i]),
{
    let checked = checked_rows(rows);
    assert forall|i: int| 0 <= i < checked.len() implies (
    #[trigger] checked[i]).error is None <==> row_code(checked[i]) is Some by {
        lemma_checked_row_stays(rows[i], is_duplicate(rows, i));
    }
    lemma_entries_or_errors(checked);
}

proof fn lemma_entries_or_errors(rows: Seq<RowText>)
    requires
        forall|i: int|
            0 <= i < rows.len() ==> ((#[trigger] rows[i]).error is None <==> row_code(rows[i])
                is Some),
    ensures
        valid_entries(rows).len() + error_total(rows) == rows.len(),
        error_total(rows) == 0 ==> forall|i: int|
            0 <= i < rows.len() ==> Some(#[trigger] valid_entries(rows)[i]) == row_code(rows[i]),
    decreases rows.len(),
{
    if rows.len() > 0 {
        let before = rows.drop_last();
        assert forall|i: int| 0 <= i < before.len() implies (
        #[trigger] before[i]).error is None <==> row_code(before[i]) is Some by {
            assert(before[i] == rows[i]);
        }
        lemma_entries_or_errors(before);
        assert(rows.last() == rows[rows.len() - 1]);
        if error_total(rows) == 0 {
            assert forall|i: int| 0 <= i < rows.len() implies Some(
                #[trigger] valid_entries(rows)[i],
            ) == row_code(rows[i]) by {
                if i < before.len() {
                    assert(valid_entries(before)[i] == valid_entries(rows)[i]);
                    assert(before[i] == rows[i]);
                }
            }
        }
    }
}

// Filtering

/// Whether a search finds something in the words, in lower case, or in the code of a row.
pub open spec fn is_found(
    word: Seq<char>,
    pinyin: Seq<char>,
    code: Seq<char>,
    needle: Seq<char>,
) -> bool {
    needle.len() == 0 || occurs_in(needle, word) || occurs_in(needle, pinyin) || occurs_in(
        needle,
        code,
    )
}

/// Whether a row is shown.
pub open spec fn is_visible(row: RowText, needle: Seq<char>, only_errors: bool) -> bool {
    (!only_errors || row.error is Some) && is_found(
        lowercase(row.word),
        lowercase(row.pinyin),
        row.code,
        needle,
    )
}

/// The places of the rows that are shown.
pub open spec fn visible_places(rows: Seq<RowText>, needle: Seq<char>, only_errors: bool) -> Seq<
    int,
>
    decreases rows.len(),
{
    if rows.len() == 0 {
        Seq::empty()
    } else {
        let before = visible_places(rows.drop_last(), needle, only_errors);
        if is_visible(rows.last(), needle, only_errors) {
            before.push(rows.len() - 1)
        } else {
            before
        }
    }
}

/// Looks for `needle` in the fields of a row, of which the first two are in lower case.
pub fn matches_search(word: &str, pinyin: &str, code: &str, needle: &str) -> (found: bool)
    ensures
        found == is_found(word@, pinyin@, code@, needle@),
{
    needle.is_empty() || contains_text(word, needle) || contains_text(pinyin, needle)
        || contains_text(code, needle)
}

/// A list of places as numbers.
pub open spec fn places(list: Seq<usize>) -> Seq<int> {
    Seq::new(list.len(), |i: int| list[i] as int)
}

/// What a search looks for: what was typed, without the white space around it and in lower case.
pub open spec fn needle_of(search: Seq<char>) -> Seq<char> {
    lowercase(trimmed(search))
}

/// Finds the rows that are shown for a search.
pub fn visible_rows(rows: &[EditableWord], search: &str, only_errors: bool) -> (visible: Vec<usize>)
    ensures
        places(visible@) == visible_places(views(rows@), lowercase(trimmed(search@)), only_errors),
        places(visible@) == visible_places(views(rows@), needle_of(search@), only_errors),
{
    let core: String = trim_text(search);
    let needle: String = to_lowercase(core.as_str());
    let mut visible: Vec<usize> = Vec::new();
    let ghost all = views(rows@);
    assert(all.take(0) =~= Seq::empty());
    assert(places(visible@) =~= Seq::empty());
    for i in 0..rows.len()
        invariant
            all == views(rows@),
            needle@ == lowercase(trimmed(search@)),
            places(visible@) == visible_places(all.take(i as int), needle@, only_errors),
    {
        assert(all.take(i + 1).drop_last() =~= all.take(i as int));
        assert(all.take(i + 1).last() == rows@[i as int]@);
        let row: &EditableWord = &rows[i];
        if !only_errors || row.error.is_some() {
            let word: String = to_lowercase(row.word.as_str());
            let pinyin: String = to_lowercase(row.pinyin.as_str());
            if matches_search(word.as_str(), pinyin.as_str(), row.code.as_str(), needle.as_str()) {
                let ghost before = places(visible@);
                visible.push(i);
                assert(places(visible@) =~= before.push(i as int));
            }
        }
    }
    assert(all.take(rows.len() as int) =~= all);
    visible
}

/// The rows are shown in their order, each that is to be shown and no other.
pub proof fn law_visible_rows_are_those_found(
    rows: Seq<RowText>,
    needle: Seq<char>,
    only_errors: bool,
)
    ensures
        forall|i: int, j: int|
            0 <= i < j < visible_places(rows, needle, only_errors).len() ==> #[trigger] visible_places(
                rows,
                needle,
                only_errors,
            )[i] < #[trigger] visible_places(rows, needle, only_errors)[j],
        forall|place: int| #[trigger]
            visible_places(rows, needle, only_errors).contains(place) <==> 0 <= place < rows.len()
                && is_visible(rows[place], needle, only_errors),
    decreases rows.len(),
{
    let found = visible_places(rows, needle, only_errors);
    if rows.len() > 0 {
        let before = rows.drop_last();
        let earlier = visible_places(before, needle, only_errors);
        law_visible_rows_are_those_found(before, needle, only_errors);
        assert forall|k: int| 0 <= k < earlier.len() implies 0 <= #[trigger] earlier[k]
            < before.len() by {
            assert(earlier.contains(earlier[k]));
        }
        assert forall|place: int| #[trigger] found.contains(place) <==> 0 <= place < rows.len()
            && is_visible(rows[place], needle, only_errors) by {
            if found.contains(place) {
                let k = choose|k: int| 0 <= k < found.len() && found[k] == place;
                if k < earlier.len() {
                    assert(earlier[k] == place);
                    assert(earlier.contains(place));
                    assert(before[place] == rows[place]);
                }
            }
            if 0 <= place < rows.len() && is_visible(rows[place], needle, only_errors) {
                if place < before.len() {
                    assert(before[place] == rows[place]);
                    assert(earlier.contains(place));
                    let k = choose|k: int| 0 <= k < earlier.len() && earlier[k] == place;
                    assert(found[k] == place);
                } else {
                    assert(found[found.len() - 1] == place);
                }
            }
        }
    }
}

/// The items of a list before and after the one at a position.
pub open spec fn around_place<A>(list: Seq<A>, position: int) -> (Option<A>, Option<A>) {
    (
        if position <= 0 {
            None
        } else {
            Some(list[position - 1])
        },
        if position + 1 >= list.len() {
            None
        } else {
            Some(list[position + 1])
        },
    )
}

/// The rows shown before and after the one at a position, to which it can be moved.
pub fn neighbours(visible: &[usize], position: usize) -> (around: (Option<usize>, Option<usize>))
    requires
        position < visible.len(),
    ensures
        around.0 == (if position == 0 {
            None
        } else {
            Some(visible@[position - 1])
        }),
        around.1 == (if position + 1 == visible.len() {
            None
        } else {
            Some(visible@[position + 1])
        }),
        around == around_place(visible@, position as int),
{
    let previous: Option<usize> = if position == 0 {
        None
    } else {
        Some(visible[position - 1])
    };
    let next: Option<usize> = if position + 1 == visible.len() {
        None
    } else {
        Some(visible[position + 1])
    };
    (previous, next)
}

// Moving

/// A list with the item at `from` taken out and put back at `to`, or at the end if that is nearer.
pub open spec fn moved<A>(list: Seq<A>, from: int, to: int) -> Seq<A> {
    if from >= list.len() {
        list
    } else {
        let rest = list.remove(from);
        rest.insert(
            if to < rest.len() {
                to
            } else {
                rest.len() as int
            },
            list[from],
        )
    }
}

/// Moves a row.
pub fn move_item(rows: &mut Vec<EditableWord>, from: usize, to: usize)
    ensures
        final(rows)@ == moved(old(rows)@, from as int, to as int),
{
    if from >= rows.len() {
        return;
    }
    let row: EditableWord = rows.remove(from);
    let place: usize = if to < rows.len() {
        to
    } else {
        rows.len()
    };
    rows.insert(place, row);
}

/// A row that is moved and moved back leaves the rows as they were.
pub proof fn law_moving_back_restores<A>(list: Seq<A>, from: int, to: int)
    requires
        0 <= from < list.len(),
        0 <= to < list.len(),
    ensures
        moved(moved(list, from, to), to, from) == list,
{
    assert(moved(moved(list, from, to), to, from) =~= list);
}

/// Moving a row keeps all rows, and puts the row where it is to be.
pub proof fn law_moving_keeps_the_rows<A>(list: Seq<A>, from: int, to: int)
    requires
        0 <= from < list.len(),
        0 <= to,
    ensures
        moved(list, from, to).to_multiset() == list.to_multiset(),
        to < list.len() ==> moved(list, from, to)[to] == list[from],
        to >= list.len() ==> moved(list, from, to).last() == list[from],
{
    let rest = list.remove(from);
    let place = if to < rest.len() {
        to
    } else {
        rest.len() as int
    };
    vstd::seq_lib::to_multiset_remove(list, from);
    vstd::seq_lib::to_multiset_insert(rest, place, list[from]);
    vstd::seq_lib::to_multiset_contains(list, list[from]);
    assert(moved(list, from, to).to_multiset() =~= list.to_multiset());
}

} // verus!
