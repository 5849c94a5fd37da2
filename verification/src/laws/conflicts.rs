//! Which words the report of shared codes names.

use crate::conflict::{
    are_conflicts, codes_in_order, conflicts_of, report_lines, report_text, words_with_code,
    ConflictText,
};
use crate::entry::EncodedText;
use crate::text::{joined, law_precedes_is_total, law_precedes_is_transitive, precedes};
use vstd::prelude::*;

verus! {

/// The words with a code are those of all entries that have the code, in the order of the entries.
pub proof fn law_words_with_code(entries: Seq<EncodedText>, code: Seq<char>)
    ensures
        words_with_code(entries, code) == entries.filter(
            |entry: EncodedText| entry.code == code,
        ).map_values(|entry: EncodedText| entry.word),
    decreases entries.len(),
{
    reveal(Seq::filter);
    let has_code = |entry: EncodedText| entry.code == code;
    let word_of = |entry: EncodedText| entry.word;
    if entries.len() > 0 {
        law_words_with_code(entries.drop_last(), code);
        assert(words_with_code(entries, code) =~= entries.filter(has_code).map_values(word_of));
    } else {
        assert(words_with_code(entries, code) =~= entries.filter(has_code).map_values(word_of));
    }
}

/// The entry at `i` is counted among those with its code.
proof fn lemma_word_is_among(entries: Seq<EncodedText>, i: int)
    requires
        0 <= i < entries.len(),
    ensures
        words_with_code(entries, entries[i].code).contains(entries[i].word),
    decreases entries.len(),
{
    let code = entries[i].code;
    let words = words_with_code(entries, code);
    if i == entries.len() - 1 {
        assert(words.last() == entries[i].word);
    } else {
        let before = words_with_code(entries.drop_last(), code);
        lemma_word_is_among(entries.drop_last(), i);
        let k = choose|k: int| 0 <= k < before.len() && before[k] == entries[i].word;
        assert(words[k] == before[k]);
    }
}

/// Each word with a code is that of an entry.
proof fn lemma_entry_of_word(entries: Seq<EncodedText>, code: Seq<char>)
    requires
        words_with_code(entries, code).len() > 0,
    ensures
        exists|i: int| 0 <= i < entries.len() && (#[trigger] entries[i]).code == code,
    decreases entries.len(),
{
    if entries.last().code == code {
        assert(entries[entries.len() - 1].code == code);
    } else {
        lemma_entry_of_word(entries.drop_last(), code);
        let i = choose|i: int|
            0 <= i < entries.drop_last().len() && (#[trigger] entries.drop_last()[i]).code == code;
        assert(entries[i].code == code);
    }
}

proof fn lemma_two_words(entries: Seq<EncodedText>, i: int, j: int)
    requires
        0 <= i < j < entries.len(),
        entries[i].code == entries[j].code,
    ensures
        words_with_code(entries, entries[i].code).len() >= 2,
    decreases entries.len(),
{
    let code = entries[i].code;
    if j == entries.len() - 1 {
        lemma_word_is_among(entries.drop_last(), i);
    } else {
        lemma_two_words(entries.drop_last(), i, j);
    }
}

proof fn lemma_two_entries(entries: Seq<EncodedText>, code: Seq<char>)
    requires
        words_with_code(entries, code).len() >= 2,
    ensures
        exists|i: int, j: int|
            0 <= i < j < entries.len() && (#[trigger] entries[i]).code == code && (
            #[trigger] entries[j]).code == code,
    decreases entries.len(),
{
    let shorter = entries.drop_last();
    if entries.last().code == code {
        lemma_entry_of_word(shorter, code);
        let i = choose|i: int| 0 <= i < shorter.len() && (#[trigger] shorter[i]).code == code;
        assert(entries[i].code == code);
        assert(entries[entries.len() - 1].code == code);
    } else {
        lemma_two_entries(shorter, code);
        let (i, j) = choose|i: int, j: int|
            0 <= i < j < shorter.len() && (#[trigger] shorter[i]).code == code && (
            #[trigger] shorter[j]).code == code;
        assert(entries[i].code == code);
        assert(entries[j].code == code);
    }
}

/// An entry that shares its code with another is named under this code, however many share it.
pub proof fn law_shared_code_is_reported(
    list: Seq<ConflictText>,
    entries: Seq<EncodedText>,
    i: int,
    j: int,
)
    requires
        are_conflicts(list, entries),
        0 <= i < entries.len(),
        0 <= j < entries.len(),
        i != j,
        entries[i].code == entries[j].code,
    ensures
        exists|k: int|
            0 <= k < list.len() && (#[trigger] list[k]).code == entries[i].code
                && list[k].words.contains(entries[i].word) && list[k].words.contains(
                entries[j].word,
            ),
{
    if i < j {
        lemma_two_words(entries, i, j);
    } else {
        lemma_two_words(entries, j, i);
    }
    lemma_word_is_among(entries, i);
    lemma_word_is_among(entries, j);
    let code = entries[i].code;
    assert(words_with_code(entries, code).len() >= 2);
    let k = choose|k: int| 0 <= k < list.len() && (#[trigger] list[k]).code == code;
    assert(list[k].words == words_with_code(entries, code));
}

/// What is named under a code are the words of all the entries that have it, one for each entry and
/// in their order, and there are at least two such entries; each code is named once, the smaller
/// codes first.
pub proof fn law_report_names_shared_codes(
    list: Seq<ConflictText>,
    entries: Seq<EncodedText>,
    k: int,
)
    requires
        are_conflicts(list, entries),
        0 <= k < list.len(),
    ensures
        list[k].words == entries.filter(
            |entry: EncodedText| entry.code == list[k].code,
        ).map_values(|entry: EncodedText| entry.word),
        list[k].words.len() == entries.filter(
            |entry: EncodedText| entry.code == list[k].code,
        ).len(),
        exists|i: int, j: int|
            0 <= i < j < entries.len() && (#[trigger] entries[i]).code == list[k].code && (
            #[trigger] entries[j]).code == list[k].code,
        forall|m: int| 0 <= m < k ==> precedes((#[trigger] list[m]).code, list[k].code),
        forall|m: int| 0 <= m < list.len() && m != k ==> (#[trigger] list[m]).code != list[k].code,
{
    law_words_with_code(entries, list[k].code);
    lemma_two_entries(entries, list[k].code);
    assert forall|m: int| 0 <= m < list.len() && m != k implies (#[trigger] list[m]).code
        != list[k].code by {
        law_precedes_is_total(list[m].code, list[k].code);
        law_precedes_is_total(list[k].code, list[m].code);
    }
}

// Every list of entries has its conflicts

/// Where a code belongs in an ordered list without it.
proof fn lemma_place_exists(list: Seq<ConflictText>, code: Seq<char>) -> (place: int)
    requires
        codes_in_order(list),
        forall|i: int| 0 <= i < list.len() ==> (#[trigger] list[i]).code != code,
    ensures
        0 <= place <= list.len(),
        forall|i: int| 0 <= i < place ==> precedes((#[trigger] list[i]).code, code),
        forall|i: int| place <= i < list.len() ==> precedes(code, (#[trigger] list[i]).code),
    decreases list.len(),
{
    if list.len() == 0 {
        0
    } else {
        let last = list.len() - 1;
        assert(list[last].code != code);
        law_precedes_is_total(list[last].code, code);
        if precedes(list[last].code, code) {
            assert forall|i: int| 0 <= i < list.len() implies precedes(
                (#[trigger] list[i]).code,
                code,
            ) by {
                if i < last {
                    law_precedes_is_transitive(list[i].code, list[last].code, code);
                }
            }
            list.len() as int
        } else {
            let shorter = list.drop_last();
            assert forall|i: int| 0 <= i < shorter.len() implies (#[trigger] shorter[i]).code
                != code by {
                assert(shorter[i] == list[i]);
            }
            let place = lemma_place_exists(shorter, code);
            assert forall|i: int| 0 <= i < place implies precedes(
                (#[trigger] list[i]).code,
                code,
            ) by {
                assert(shorter[i] == list[i]);
            }
            assert forall|i: int| place <= i < list.len() implies precedes(
                code,
                (#[trigger] list[i]).code,
            ) by {
                if i < last {
                    assert(shorter[i] == list[i]);
                }
            }
            place
        }
    }
}

proof fn lemma_insert_keeps_order(list: Seq<ConflictText>, place: int, group: ConflictText)
    requires
        codes_in_order(list),
        0 <= place <= list.len(),
        forall|i: int| 0 <= i < place ==> precedes((#[trigger] list[i]).code, group.code),
        forall|i: int| place <= i < list.len() ==> precedes(group.code, (#[trigger] list[i]).code),
    ensures
        codes_in_order(list.insert(place, group)),
{
    let after = list.insert(place, group);
    assert forall|i: int, j: int| 0 <= i < j < after.len() implies precedes(
        (#[trigger] after[i]).code,
        (#[trigger] after[j]).code,
    ) by {
        let a = if i < place {
            i
        } else {
            i - 1
        };
        let b = if j < place {
            j
        } else {
            j - 1
        };
        if i != place {
            assert(after[i] == list[a]);
        }
        if j != place {
            assert(after[j] == list[b]);
        }
        if i != place && j != place {
            assert(precedes(list[a].code, list[b].code));
        }
    }
}

/// Whether a list names the shared codes that the first `k` entries have.
spec fn names_first(list: Seq<ConflictText>, entries: Seq<EncodedText>, k: int) -> bool {
    &&& codes_in_order(list)
    &&& forall|i: int|
        0 <= i < list.len() ==> (#[trigger] list[i]).words == words_with_code(
            entries,
            list[i].code,
        ) && list[i].words.len() >= 2
    &&& forall|m: int|
        0 <= m < k && words_with_code(entries, (#[trigger] entries[m]).code).len() >= 2
            ==> exists|i: int| 0 <= i < list.len() && (#[trigger] list[i]).code == entries[m].code
}

proof fn lemma_first_can_be_named(entries: Seq<EncodedText>, k: int) -> (list: Seq<ConflictText>)
    requires
        0 <= k <= entries.len(),
    ensures
        names_first(list, entries, k),
    decreases k,
{
    if k == 0 {
        Seq::empty()
    } else {
        let before = lemma_first_can_be_named(entries, k - 1);
        let code = entries[k - 1].code;
        let words = words_with_code(entries, code);
        if words.len() < 2 || exists|i: int|
            0 <= i < before.len() && (#[trigger] before[i]).code == code {
            before
        } else {
            let group = ConflictText { code, words };
            let place = lemma_place_exists(before, code);
            let after = before.insert(place, group);
            lemma_insert_keeps_order(before, place, group);
            assert forall|i: int| 0 <= i < after.len() implies (#[trigger] after[i]).words
                == words_with_code(entries, after[i].code) && after[i].words.len() >= 2 by {
                if i < place {
                    assert(after[i] == before[i]);
                } else if i > place {
                    assert(after[i] == before[i - 1]);
                }
            }
            assert forall|m: int|
                0 <= m < k && words_with_code(entries, (#[trigger] entries[m]).code).len()
                    >= 2 implies exists|i: int|
                0 <= i < after.len() && (#[trigger] after[i]).code == entries[m].code by {
                if entries[m].code == code {
                    assert(after[place].code == entries[m].code);
                } else {
                    let i = choose|i: int|
                        0 <= i < before.len() && (#[trigger] before[i]).code == entries[m].code;
                    if i < place {
                        assert(after[i].code == entries[m].code);
                    } else {
                        assert(after[i + 1].code == entries[m].code);
                    }
                }
            }
            after
        }
    }
}

/// Every list of entries has its conflicts.
pub proof fn law_conflicts_exist(entries: Seq<EncodedText>)
    ensures
        are_conflicts(conflicts_of(entries), entries),
{
    let list = lemma_first_can_be_named(entries, entries.len() as int);
    assert forall|code: Seq<char>|
        (#[trigger] words_with_code(entries, code)).len() >= 2 implies exists|i: int|
        0 <= i < list.len() && (#[trigger] list[i]).code == code by {
        lemma_entry_of_word(entries, code);
        let m = choose|m: int| 0 <= m < entries.len() && (#[trigger] entries[m]).code == code;
        assert(words_with_code(entries, entries[m].code).len() >= 2);
    }
    assert(are_conflicts(list, entries));
}

// The report

/// The report has one line for each shared code: the code, a tab and the words with single spaces
/// between them.
pub proof fn law_report_is_written_line_by_line(
    a: Seq<ConflictText>,
    b: Seq<ConflictText>,
    group: ConflictText,
)
    ensures
        report_text(Seq::empty()) == "# 编码\t重码词\n"@,
        report_text(a + b) == report_text(a) + report_text(b).skip("# 编码\t重码词\n"@.len() as int),
        report_text(seq![group]) == "# 编码\t重码词\n"@ + group.code + seq!['\t'] + joined(
            group.words,
            seq![' '],
        ) + seq!['\n'],
{
    reveal_strlit(" ");
    assert(" "@ =~= seq![' ']);
    let none = Seq::<ConflictText>::empty();
    assert(seq![group].drop_last() =~= none);
    assert(report_lines(none) =~= Seq::empty());
    assert(report_text(none) =~= "# 编码\t重码词\n"@);
    assert(report_text(seq![group]) =~= "# 编码\t重码词\n"@ + group.code + seq!['\t'] + joined(
        group.words,
        seq![' '],
    ) + seq!['\n']);
    lemma_lines_of_both(a, b);
    assert(report_text(b).skip("# 编码\t重码词\n"@.len() as int) =~= report_lines(b));
    assert(report_text(a + b) =~= report_text(a) + report_lines(b));
}

proof fn lemma_lines_of_both(a: Seq<ConflictText>, b: Seq<ConflictText>)
    ensures
        report_lines(a + b) == report_lines(a) + report_lines(b),
    decreases b.len(),
{
    if b.len() == 0 {
        assert(a + b =~= a);
        assert(report_lines(a) + report_lines(b) =~= report_lines(a));
    } else {
        assert((a + b).drop_last() =~= a + b.drop_last());
        assert((a + b).last() == b.last());
        lemma_lines_of_both(a, b.drop_last());
        assert(report_lines(a + b) =~= report_lines(a) + report_lines(b));
    }
}

} // verus!
