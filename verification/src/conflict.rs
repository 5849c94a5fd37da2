//! Words that share a code.

use crate::entry::{EncodedEntry, EncodedText};
use crate::laws::conflicts::{law_report_names_shared_codes, law_shared_code_is_reported};
use crate::order::lemma_ordered_lists_agree;
use crate::text::{
    compare, join, joined, law_precedes_is_total, law_precedes_is_transitive, precedes, views,
    Order,
};
use vstd::prelude::*;

verus! {

/// A code and the words that share it.
#[derive(Debug, PartialEq, Eq)]
pub struct Conflict {
    pub code: String,
    pub words: Vec<String>,
}

/// What a `Conflict` says.
#[verifier::ext_equal]
pub struct ConflictText {
    pub code: Seq<char>,
    pub words: Seq<Seq<char>>,
}

impl View for Conflict {
    type V = ConflictText;

    open spec fn view(&self) -> ConflictText {
        ConflictText { code: self.code@, words: views(self.words@) }
    }
}

/// The words of the entries with the given code, in the order of the entries.
pub open spec fn words_with_code(entries: Seq<EncodedText>, code: Seq<char>) -> Seq<Seq<char>>
    decreases entries.len(),
{
    if entries.len() == 0 {
        Seq::empty()
    } else if entries.last().code == code {
        words_with_code(entries.drop_last(), code).push(entries.last().word)
    } else {
        words_with_code(entries.drop_last(), code)
    }
}

/// Whether the codes of a list are in order and none occurs twice.
pub open spec fn codes_in_order(list: Seq<ConflictText>) -> bool {
    forall|i: int, j: int|
        0 <= i < j < list.len() ==> precedes((#[trigger] list[i]).code, (#[trigger] list[j]).code)
}

/// Whether `list` holds, for each code that at least `least` of the entries have, these entries'
/// words, and nothing else.
pub open spec fn groups(
    list: Seq<ConflictText>,
    entries: Seq<EncodedText>,
    least: nat,
) -> bool {
    &&& codes_in_order(list)
    &&& forall|i: int|
        0 <= i < list.len() ==> (#[trigger] list[i]).words == words_with_code(
            entries,
            list[i].code,
        ) && list[i].words.len() >= least
    &&& forall|code: Seq<char>|
        (#[trigger] words_with_code(entries, code)).len() >= least ==> exists|i: int|
            0 <= i < list.len() && (#[trigger] list[i]).code == code
}

/// Whether `list` names the codes that more than one entry has, in the order of the codes, each
/// with the words that have it, in the order of the entries.
pub open spec fn are_conflicts(list: Seq<ConflictText>, entries: Seq<EncodedText>) -> bool {
    groups(list, entries, 2)
}

/// There is but one list of conflicts for a list of entries.
pub proof fn law_conflicts_are_determined(
    a: Seq<ConflictText>,
    b: Seq<ConflictText>,
    entries: Seq<EncodedText>,
)
    requires
        are_conflicts(a, entries),
        are_conflicts(b, entries),
    ensures
        a == b,
{
    let before = |x: ConflictText, y: ConflictText| precedes(x.code, y.code);
    assert forall|x: ConflictText, y: ConflictText| #[trigger] before(x, y) implies !before(
        y,
        x,
    ) by {
        law_precedes_is_total(x.code, y.code);
    }
    assert forall|item: ConflictText| #[trigger] a.contains(item) <==> b.contains(item) by {
        if a.contains(item) {
            lemma_conflict_is_in(item, a, b, entries);
        }
        if b.contains(item) {
            lemma_conflict_is_in(item, b, a, entries);
        }
    }
    lemma_ordered_lists_agree(a, b, before);
}

proof fn lemma_conflict_is_in(
    item: ConflictText,
    a: Seq<ConflictText>,
    b: Seq<ConflictText>,
    entries: Seq<EncodedText>,
)
    requires
        are_conflicts(a, entries),
        are_conflicts(b, entries),
        a.contains(item),
    ensures
        b.contains(item),
{
    let i = choose|i: int| 0 <= i < a.len() && a[i] == item;
    assert(words_with_code(entries, a[i].code).len() >= 2);
    let j = choose|j: int| 0 <= j < b.len() && (#[trigger] b[j]).code == item.code;
    assert(b[j].words == item.words);
    assert(b[j] == item);
}

/// The conflicts in a list of entries.
pub open spec fn conflicts_of(entries: Seq<EncodedText>) -> Seq<ConflictText> {
    choose|list: Seq<ConflictText>| are_conflicts(list, entries)
}

/// Where a code stands in an ordered list, or where it would stand.
fn find_place(list: &[Conflict], code: &str) -> (place: (usize, bool))
    requires
        codes_in_order(views(list@)),
    ensures
        place.0 <= list.len(),
        forall|i: int| 0 <= i < place.0 ==> precedes((#[trigger] list@[i]).code@, code@),
        place.1 ==> place.0 < list.len() && list@[place.0 as int].code@ == code@,
        !place.1 ==> forall|i: int|
            place.0 <= i < list.len() ==> precedes(code@, (#[trigger] list@[i]).code@),
{
    let mut low: usize = 0;
    let mut high: usize = list.len();
    let ghost all = views(list@);
    while low < high
        invariant
            all == views(list@),
            codes_in_order(all),
            low <= high <= list.len(),
            forall|i: int| 0 <= i < low ==> precedes((#[trigger] list@[i]).code@, code@),
            forall|i: int| high <= i < list.len() ==> precedes(code@, (#[trigger] list@[i]).code@),
        decreases high - low,
    {
        let middle: usize = low + (high - low) / 2;
        match compare(list[middle].code.as_str(), code) {
            Order::Same => {
                assert forall|i: int| 0 <= i < middle implies precedes(
                    (#[trigger] list@[i]).code@,
                    code@,
                ) by {
                    assert(precedes(all[i].code, all[middle as int].code));
                }
                return (middle, true);
            },
            Order::Before => {
                assert forall|i: int| 0 <= i < middle + 1 implies precedes(
                    (#[trigger] list@[i]).code@,
                    code@,
                ) by {
                    if i < middle {
                        assert(precedes(all[i].code, all[middle as int].code));
                        law_precedes_is_transitive(
                            list@[i].code@,
                            list@[middle as int].code@,
                            code@,
                        );
                    }
                }
                low = middle + 1;
            },
            Order::After => {
                assert forall|i: int| middle <= i < list.len() implies precedes(
                    code@,
                    (#[trigger] list@[i]).code@,
                ) by {
                    if middle < i {
                        assert(precedes(all[middle as int].code, all[i].code));
                        law_precedes_is_transitive(
                            code@,
                            list@[middle as int].code@,
                            list@[i].code@,
                        );
                    }
                }
                high = middle;
            },
        }
    }
    (low, false)
}

/// Puts the next entry into its group.
fn add_entry(list: &mut Vec<Conflict>, entry: &EncodedEntry, Ghost(done): Ghost<Seq<EncodedText>>)
    requires
        groups(views(old(list)@), done, 1),
    ensures
        groups(views(final(list)@), done.push(entry@), 1),
{
    let ghost before = views(list@);
    let ghost after_done = done.push(entry@);
    proof {
        assert(after_done.drop_last() =~= done);
        assert forall|code: Seq<char>| code != entry.code@ implies #[trigger] words_with_code(
            after_done,
            code,
        ) == words_with_code(done, code) by {}
        assert(words_with_code(after_done, entry.code@) == words_with_code(
            done,
            entry.code@,
        ).push(entry.word@));
    }
    let (place, found) = find_place(list, entry.code.as_str());
    if found {
        let ghost words = list@[place as int].words@;
        list[place].words.push(entry.word.clone());
        let ghost after = views(list@);
        proof {
            assert(before[place as int].words == views(words));
            assert(after[place as int].words =~= before[place as int].words.push(entry.word@));
            assert(after[place as int].code == before[place as int].code);
            assert forall|i: int| 0 <= i < after.len() && i != place implies #[trigger] after[i]
                == before[i] by {}
            assert forall|i: int, j: int| 0 <= i < j < after.len() implies precedes(
                (#[trigger] after[i]).code,
                (#[trigger] after[j]).code,
            ) by {
                assert(precedes(before[i].code, before[j].code));
            }
            assert forall|i: int| 0 <= i < after.len() implies (#[trigger] after[i]).words
                == words_with_code(after_done, after[i].code) && after[i].words.len() >= 1 by {
                if i != place {
                    law_precedes_is_total(before[i].code, before[place as int].code);
                    if i < place {
                        assert(precedes(before[i].code, before[place as int].code));
                    } else {
                        assert(precedes(before[place as int].code, before[i].code));
                        law_precedes_is_total(before[place as int].code, before[i].code);
                    }
                }
            }
            assert forall|code: Seq<char>|
                (#[trigger] words_with_code(after_done, code)).len() >= 1 implies exists|i: int|
                0 <= i < after.len() && (#[trigger] after[i]).code == code by {
                if code == entry.code@ {
                    assert(after[place as int].code == code);
                } else {
                    assert(words_with_code(done, code).len() >= 1);
                    let i = choose|i: int|
                        0 <= i < before.len() && (#[trigger] before[i]).code == code;
                    assert(after[i].code == code);
                }
            }
        }
    } else {
        let mut words: Vec<String> = Vec::new();
        words.push(entry.word.clone());
        let group: Conflict = Conflict { code: entry.code.clone(), words };
        let ghost text = group@;
        list.insert(place, group);
        let ghost after = views(list@);
        proof {
            assert(after =~= before.insert(place as int, text));
            assert forall|i: int| 0 <= i < before.len() implies (#[trigger] before[i]).code
                != entry.code@ by {
                law_precedes_is_total(before[i].code, entry.code@);
                law_precedes_is_total(entry.code@, before[i].code);
                assert(before[i].code == old(list)@[i].code@);
            }
            if words_with_code(done, entry.code@).len() >= 1 {
                let i = choose|i: int|
                    0 <= i < before.len() && (#[trigger] before[i]).code == entry.code@;
                assert(false);
            }
            assert(words_with_code(done, entry.code@) =~= Seq::empty());
            assert(text.words =~= words_with_code(after_done, entry.code@));
            assert forall|i: int, j: int| 0 <= i < j < after.len() implies precedes(
                (#[trigger] after[i]).code,
                (#[trigger] after[j]).code,
            ) by {
                let a = if i < place {
                    i
                } else {
                    i - 1
                };
                let b = if j < place {
                    j
                } else {
                    j - 1
                };
                if i != place && j != place {
                    assert(precedes(before[a].code, before[b].code));
                } else if i == place {
                    assert(before[b].code == old(list)@[b].code@);
                } else {
                    assert(before[a].code == old(list)@[a].code@);
                }
            }
            assert forall|i: int| 0 <= i < after.len() implies (#[trigger] after[i]).words
                == words_with_code(after_done, after[i].code) && after[i].words.len() >= 1 by {
                if i < place {
                    assert(after[i] == before[i]);
                } else if i > place {
                    assert(after[i] == before[i - 1]);
                }
            }
            assert forall|code: Seq<char>|
                (#[trigger] words_with_code(after_done, code)).len() >= 1 implies exists|i: int|
                0 <= i < after.len() && (#[trigger] after[i]).code == code by {
                if code == entry.code@ {
                    assert(after[place as int].code == code);
                } else {
                    assert(words_with_code(done, code).len() >= 1);
                    let i = choose|i: int|
                        0 <= i < before.len() && (#[trigger] before[i]).code == code;
                    if i < place {
                        assert(after[i].code == code);
                    } else {
                        assert(after[i + 1].code == code);
                    }
                }
            }
        }
    }
}

/// What a list of conflicts says of the entries one by one.
proof fn lemma_conflicts_by_entry(conflicts: Seq<Conflict>, entries: Seq<EncodedEntry>)
    requires
        are_conflicts(views(conflicts), views(entries)),
    ensures
        forall|i: int, j: int|
            0 <= i < entries.len() && 0 <= j < entries.len() && i != j && (
            #[trigger] entries[i]).code@ == (#[trigger] entries[j]).code@ ==> exists|k: int|
                0 <= k < conflicts.len() && (#[trigger] conflicts[k]).code@ == entries[i].code@
                    && views(conflicts[k].words@).contains(entries[i].word@),
        forall|k: int|
            0 <= k < conflicts.len() ==> (#[trigger] conflicts[k]).words.len() >= 2 && views(
                conflicts[k].words@,
            ) == views(entries).filter(
                |entry: EncodedText| entry.code == conflicts[k].code@,
            ).map_values(|entry: EncodedText| entry.word),
{
    let found = views(conflicts);
    let all = views(entries);
    assert forall|i: int, j: int|
        0 <= i < entries.len() && 0 <= j < entries.len() && i != j && (#[trigger] entries[i]).code@
            == (#[trigger] entries[j]).code@ implies exists|k: int|
        0 <= k < conflicts.len() && (#[trigger] conflicts[k]).code@ == entries[i].code@ && views(
            conflicts[k].words@,
        ).contains(entries[i].word@) by {
        law_shared_code_is_reported(found, all, i, j);
        let k = choose|k: int|
            0 <= k < found.len() && (#[trigger] found[k]).code == all[i].code
                && found[k].words.contains(all[i].word) && found[k].words.contains(all[j].word);
        assert(found[k] == conflicts[k]@);
    }
    assert forall|k: int| 0 <= k < conflicts.len() implies (#[trigger] conflicts[k]).words.len()
        >= 2 && views(conflicts[k].words@) == all.filter(
        |entry: EncodedText| entry.code == conflicts[k].code@,
    ).map_values(|entry: EncodedText| entry.word) by {
        law_report_names_shared_codes(found, all, k);
        assert(found[k] == conflicts[k]@);
        assert(found[k].words.len() >= 2);
    }
}

/// Finds the codes that more than one entry has.
pub fn find_conflicts(entries: &[EncodedEntry]) -> (conflicts: Vec<Conflict>)
    ensures
        are_conflicts(views(conflicts@), views(entries@)),
        views(conflicts@) == conflicts_of(views(entries@)),
        forall|i: int, j: int|
            0 <= i < entries.len() && 0 <= j < entries.len() && i != j && (
            #[trigger] entries@[i]).code@ == (#[trigger] entries@[j]).code@ ==> exists|k: int|
                0 <= k < conflicts.len() && (#[trigger] conflicts@[k]).code@ == entries@[i].code@
                    && views(conflicts@[k].words@).contains(entries@[i].word@),
        forall|k: int|
            0 <= k < conflicts.len() ==> (#[trigger] conflicts@[k]).words.len() >= 2 && views(
                conflicts@[k].words@,
            ) == views(entries@).filter(
                |entry: EncodedText| entry.code == conflicts@[k].code@,
            ).map_values(|entry: EncodedText| entry.word),
{
    let mut list: Vec<Conflict> = Vec::new();
    let ghost all = views(entries@);
    assert(all.take(0) =~= Seq::empty());
    assert(views(list@) =~= Seq::empty());
    for i in 0..entries.len()
        invariant
            all == views(entries@),
            groups(views(list@), all.take(i as int), 1),
    {
        assert(all.take(i + 1) =~= all.take(i as int).push(entries@[i as int]@));
        add_entry(&mut list, &entries[i], Ghost(all.take(i as int)));
    }
    assert(all.take(entries.len() as int) =~= all);
    let ghost every = views(list@);
    let ghost grouped = list@;
    let mut conflicts: Vec<Conflict> = Vec::new();
    for group in it: list
        invariant
            it.seq() == grouped,
            every == views(grouped),
            groups(every, all, 1),
            forall|i: int|
                0 <= i < conflicts@.len() ==> (#[trigger] conflicts@[i])@.words.len() >= 2 && exists|
                    k: int,
                |
                    0 <= k < it.index() && #[trigger] every[k] == conflicts@[i]@,
            forall|i: int, j: int|
                0 <= i < j < conflicts@.len() ==> precedes(
                    (#[trigger] conflicts@[i])@.code,
                    (#[trigger] conflicts@[j])@.code,
                ),
            forall|k: int|
                0 <= k < it.index() && (#[trigger] every[k]).words.len() >= 2 ==> exists|i: int|
                    0 <= i < conflicts@.len() && (#[trigger] conflicts@[i])@ == every[k],
    {
        let ghost k = it.index();
        let ghost earlier = conflicts@;
        assert(group@ == every[k]);
        if group.words.len() > 1 {
            conflicts.push(group);
            proof {
                let n = earlier.len() as int;
                assert(conflicts@[n]@ == every[k]);
                assert forall|i: int| 0 <= i < n implies precedes(
                    (#[trigger] conflicts@[i])@.code,
                    every[k].code,
                ) by {
                    assert(conflicts@[i] == earlier[i]);
                    let m = choose|m: int| 0 <= m < k && #[trigger] every[m] == earlier[i]@;
                    assert(precedes(every[m].code, every[k].code));
                }
                assert forall|m: int|
                    0 <= m < k + 1 && (#[trigger] every[m]).words.len() >= 2 implies exists|i: int|
                    0 <= i < conflicts@.len() && (#[trigger] conflicts@[i])@ == every[m] by {
                    if m < k {
                        let i = choose|i: int|
                            0 <= i < earlier.len() && (#[trigger] earlier[i])@ == every[m];
                        assert(conflicts@[i] == earlier[i]);
                    }
                }
            }
        }
    }
    proof {
        let found = views(conflicts@);
        assert forall|i: int, j: int| 0 <= i < j < found.len() implies precedes(
            (#[trigger] found[i]).code,
            (#[trigger] found[j]).code,
        ) by {
            assert(precedes(conflicts@[i]@.code, conflicts@[j]@.code));
        }
        assert forall|i: int| 0 <= i < found.len() implies (#[trigger] found[i]).words
            == words_with_code(all, found[i].code) && found[i].words.len() >= 2 by {
            assert(found[i] == conflicts@[i]@);
        }
        assert forall|code: Seq<char>|
            (#[trigger] words_with_code(all, code)).len() >= 2 implies exists|i: int|
            0 <= i < found.len() && (#[trigger] found[i]).code == code by {
            let k = choose|k: int| 0 <= k < every.len() && (#[trigger] every[k]).code == code;
            let i = choose|i: int|
                0 <= i < conflicts@.len() && (#[trigger] conflicts@[i])@ == every[k];
            assert(found[i].code == code);
        }
        assert(are_conflicts(found, all));
        law_conflicts_are_determined(found, conflicts_of(all), all);
        lemma_conflicts_by_entry(conflicts@, entries@);
    }
    conflicts
}

// The report

/// The lines of a report: code, tab, the words with spaces between them.
pub open spec fn report_lines(list: Seq<ConflictText>) -> Seq<char>
    decreases list.len(),
{
    if list.len() == 0 {
        Seq::empty()
    } else {
        report_lines(list.drop_last()) + list.last().code + seq!['\t'] + joined(
            list.last().words,
            " "@,
        ) + seq!['\n']
    }
}

/// The report of the codes that are shared.
pub open spec fn report_text(list: Seq<ConflictText>) -> Seq<char> {
    "# 编码\t重码词\n"@ + report_lines(list)
}

/// Writes the report.
pub fn render_conflicts(conflicts: &[Conflict]) -> (output: String)
    ensures
        output@ == report_text(views(conflicts@)),
{
    let mut output: String = "# 编码\t重码词\n".to_owned();
    let ghost head = output@;
    let ghost all = views(conflicts@);
    assert(all.take(0) =~= Seq::empty());
    assert(output@ =~= head + report_lines(all.take(0)));
    for i in 0..conflicts.len()
        invariant
            all == views(conflicts@),
            output@ == head + report_lines(all.take(i as int)),
    {
        assert(all.take(i + 1).drop_last() =~= all.take(i as int));
        assert(all.take(i + 1).last() == conflicts@[i as int]@);
        output.append(conflicts[i].code.as_str());
        output.push('\t');
        let words: String = join(&conflicts[i].words, " ");
        output.append(words.as_str());
        output.push('\n');
        assert(output@ =~= head + report_lines(all.take(i + 1)));
    }
    assert(all.take(conflicts.len() as int) =~= all);
    output
}

} // verus!
