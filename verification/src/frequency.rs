//! The words of a text and how often they occur.

use crate::encode::{pronunciation, readings_of, spoken};
use crate::entry::{FrequencyEntry, FrequencyText};
use crate::error::lemma_collected_succeeds;
use crate::foreign::{char_pinyin, cut_text, cut_tokens, in_pinyin_range, plain_pinyin};
use crate::laws::counts::{law_frequent_word_is_listed, law_listed_word_is_frequent};
use crate::order::lemma_ordered_lists_agree;
use crate::text::{
    compare, concatenated, decimal, from_chars, law_precedes_is_total, law_precedes_is_transitive,
    lemma_occurs_in_is_transitive, lemma_piece_occurs, lemma_trimmed_is_part, occurs_in, precedes,
    push_decimal, to_chars, trim, trimmed, views, Order,
};
use jieba_rs::Jieba;
use vstd::hash_map::StringHashMap;
use vstd::prelude::*;
use vstd::utf8::encode_utf8;

verus! {

// Which words count

/// Whether pinyin is known for each character of a word.
pub open spec fn is_pronounceable(word: Seq<char>) -> bool {
    forall|i: int| 0 <= i < word.len() ==> plain_pinyin(#[trigger] word[i]) is Some
}

/// Whether a word counts: it is not empty, a single character only if those are wanted, and can
/// be pronounced.
pub open spec fn is_counted(word: Seq<char>, include_single_chars: bool) -> bool {
    word.len() > 0 && (include_single_chars || word.len() != 1) && is_pronounceable(word)
}

/// The words that count among a list of tokens, without the white space around them.
pub open spec fn counted_words(tokens: Seq<Seq<char>>, include_single_chars: bool) -> Seq<
    Seq<char>,
>
    decreases tokens.len(),
{
    if tokens.len() == 0 {
        Seq::empty()
    } else {
        let before = counted_words(tokens.drop_last(), include_single_chars);
        let word = trimmed(tokens.last());
        if is_counted(word, include_single_chars) {
            before.push(word)
        } else {
            before
        }
    }
}

/// Whether the characters of a word lie where the pinyin table has something.
pub open spec fn in_pinyin_table(word: Seq<char>) -> bool {
    forall|i: int| 0 <= i < word.len() ==> in_pinyin_range(#[trigger] word[i])
}

/// Whether pinyin is known for each character of a word.
pub open spec fn known_chars(word: Seq<char>) -> Seq<bool> {
    Seq::new(word.len(), |i: int| plain_pinyin(word[i]) is Some)
}

/// Whether a word counts, given for which of its characters pinyin is known.
pub open spec fn is_kept(known: Seq<bool>, include_single_chars: bool) -> bool {
    known.len() > 0 && (include_single_chars || known.len() != 1) && forall|i: int|
        0 <= i < known.len() ==> #[trigger] known[i]
}

/// Decides whether a word counts, given for which of its characters pinyin is known.
pub fn keeps_word(known: &[bool], include_single_chars: bool) -> (kept: bool)
    ensures
        kept == is_kept(known@, include_single_chars),
        kept <==> known@.len() > 0 && (include_single_chars || known@.len() > 1)
            && !known@.contains(false),
{
    if known.len() == 0 || (!include_single_chars && known.len() == 1) {
        return false;
    }
    for i in 0..known.len()
        invariant
            forall|j: int| 0 <= j < i ==> #[trigger] known@[j],
    {
        if !known[i] {
            assert(known@.contains(known@[i as int]));
            return false;
        }
    }
    true
}

fn counts(word: &[char], include_single_chars: bool) -> (counted: bool)
    ensures
        counted == is_counted(word@, include_single_chars),
        counted ==> in_pinyin_table(word@),
{
    let mut known: Vec<bool> = Vec::new();
    for i in 0..word.len()
        invariant
            known@.len() == i,
            forall|j: int|
                0 <= j < i ==> #[trigger] known@[j] == (plain_pinyin(word@[j]) is Some),
            forall|j: int| 0 <= j < i && #[trigger] known@[j] ==> in_pinyin_range(word@[j]),
    {
        known.push(char_pinyin(word[i]).is_some());
    }
    assert(known@ =~= known_chars(word@));
    let counted: bool = keeps_word(&known, include_single_chars);
    proof {
        if counted {
            assert forall|i: int| 0 <= i < word@.len() implies plain_pinyin(#[trigger] word@[i])
                is Some && in_pinyin_range(word@[i]) by {
                assert(known@[i]);
            }
        } else if is_counted(word@, include_single_chars) {
            assert forall|i: int| 0 <= i < known@.len() implies #[trigger] known@[i] by {
                assert(plain_pinyin(word@[i]) is Some);
            }
        }
    }
    counted
}

/// The words that count among the tokens of a text.
pub fn select_words(tokens: &[String], include_single_chars: bool) -> (words: Vec<String>)
    ensures
        views(words@) == counted_words(views(tokens@), include_single_chars),
        forall|i: int| 0 <= i < words.len() ==> in_pinyin_table((#[trigger] words@[i])@),
{
    let mut words: Vec<String> = Vec::new();
    let ghost all = views(tokens@);
    assert(all.take(0) =~= Seq::empty());
    assert(views(words@) =~= Seq::empty());
    for i in 0..tokens.len()
        invariant
            all == views(tokens@),
            views(words@) == counted_words(all.take(i as int), include_single_chars),
            forall|k: int| 0 <= k < words.len() ==> in_pinyin_table((#[trigger] words@[k])@),
    {
        assert(all.take(i + 1).drop_last() =~= all.take(i as int));
        assert(all.take(i + 1).last() == tokens@[i as int]@);
        let chars: Vec<char> = to_chars(tokens[i].as_str());
        let word: &[char] = trim(&chars);
        if counts(word, include_single_chars) {
            let ghost before = views(words@);
            words.push(from_chars(word));
            assert(views(words@) =~= before.push(word@));
        }
    }
    assert(all.take(tokens.len() as int) =~= all);
    words
}

// Counting

/// How often `word` occurs in a list.
pub open spec fn occurrences(words: Seq<Seq<char>>, word: Seq<char>) -> nat
    decreases words.len(),
{
    if words.len() == 0 {
        0
    } else {
        occurrences(words.drop_last(), word) + if words.last() == word {
            1nat
        } else {
            0
        }
    }
}

proof fn lemma_occurrences_bound(words: Seq<Seq<char>>, word: Seq<char>)
    ensures
        occurrences(words, word) <= words.len(),
    decreases words.len(),
{
    if words.len() > 0 {
        lemma_occurrences_bound(words.drop_last(), word);
    }
}

/// Whether a list counts each of the words once.
pub open spec fn is_count(list: Seq<FrequencyText>, words: Seq<Seq<char>>) -> bool {
    &&& forall|i: int|
        0 <= i < list.len() ==> (#[trigger] list[i]).frequency == occurrences(
            words,
            list[i].word,
        ) && list[i].frequency >= 1
    &&& forall|i: int, j: int|
        0 <= i < j < list.len() ==> (#[trigger] list[i]).word != (#[trigger] list[j]).word
    &&& forall|word: Seq<char>|
        #[trigger] occurrences(words, word) >= 1 ==> exists|i: int|
            0 <= i < list.len() && (#[trigger] list[i]).word == word
}

/// Counts the words.
fn count_words(words: &[String]) -> (list: Vec<FrequencyEntry>)
    ensures
        is_count(views(list@), views(words@)),
{
    let mut list: Vec<FrequencyEntry> = Vec::new();
    let mut places: StringHashMap<usize> = StringHashMap::new();
    let ghost all = views(words@);
    assert(all.take(0) =~= Seq::empty());
    assert(views(list@) =~= Seq::empty());
    for n in 0..words.len()
        invariant
            all == views(words@),
            is_count(views(list@), all.take(n as int)),
            forall|word: Seq<char>| #[trigger]
                places@.contains_key(word) ==> places@[word] < list.len()
                    && list@[places@[word] as int].word@ == word,
            forall|i: int|
                0 <= i < list.len() ==> places@.contains_key((#[trigger] list@[i]).word@),
    {
        let ghost done = all.take(n as int);
        let ghost before = views(list@);
        let ghost word = words@[n as int]@;
        let ghost next = all.take(n + 1);
        proof {
            assert(next.drop_last() =~= done);
            assert(next.last() == word);
            assert forall|other: Seq<char>| other != word implies #[trigger] occurrences(
                next,
                other,
            ) == occurrences(done, other) by {}
            assert(occurrences(next, word) == occurrences(done, word) + 1);
            lemma_occurrences_bound(done, word);
        }
        let known: Option<usize> = match places.get(words[n].as_str()) {
            Some(place) => Some(*place),
            None => None,
        };
        match known {
            Some(place) => {
                let ghost old_list = list@;
                assert(before[place as int].word == word);
                assert(before[place as int].frequency == occurrences(done, word));
                list[place].frequency = list[place].frequency + 1;
                let ghost after = views(list@);
                proof {
                    assert(after[place as int].word == word);
                    assert forall|i: int| 0 <= i < after.len() && i != place implies #[trigger] after[i]
                        == before[i] by {}
                    assert forall|i: int| 0 <= i < after.len() implies (
                    #[trigger] after[i]).frequency == occurrences(next, after[i].word)
                        && after[i].frequency >= 1 by {
                        if i != place {
                            assert(before[i].word != before[place as int].word);
                        }
                    }
                    assert forall|i: int, j: int| 0 <= i < j < after.len() implies (
                    #[trigger] after[i]).word != (#[trigger] after[j]).word by {
                        assert(before[i].word != before[j].word);
                    }
                    assert forall|other: Seq<char>| #[trigger]
                        occurrences(next, other) >= 1 implies exists|i: int|
                        0 <= i < after.len() && (#[trigger] after[i]).word == other by {
                        if other == word {
                            assert(after[place as int].word == other);
                        } else {
                            let i = choose|i: int|
                                0 <= i < before.len() && (#[trigger] before[i]).word == other;
                            assert(after[i].word == other);
                        }
                    }
                    assert forall|i: int| 0 <= i < list.len() implies places@.contains_key(
                        (#[trigger] list@[i]).word@,
                    ) by {
                        assert(list@[i].word@ == old_list[i].word@);
                    }
                }
            },
            None => {
                let place: usize = list.len();
                let ghost old_list = list@;
                list.push(FrequencyEntry { word: words[n].clone(), frequency: 1 });
                places.insert(words[n].clone(), place);
                let ghost after = views(list@);
                proof {
                    assert(after =~= before.push(FrequencyText { word, frequency: 1 }));
                    assert forall|i: int| 0 <= i < before.len() implies (
                    #[trigger] before[i]).word != word by {
                        assert(before[i].word == old_list[i].word@);
                    }
                    if occurrences(done, word) >= 1 {
                        let i = choose|i: int|
                            0 <= i < before.len() && (#[trigger] before[i]).word == word;
                        assert(false);
                    }
                    assert forall|i: int| 0 <= i < after.len() implies (
                    #[trigger] after[i]).frequency == occurrences(next, after[i].word)
                        && after[i].frequency >= 1 by {
                        if i < place {
                            assert(after[i] == before[i]);
                        }
                    }
                    assert forall|other: Seq<char>| #[trigger]
                        occurrences(next, other) >= 1 implies exists|i: int|
                        0 <= i < after.len() && (#[trigger] after[i]).word == other by {
                        if other == word {
                            assert(after[place as int].word == other);
                        } else {
                            let i = choose|i: int|
                                0 <= i < before.len() && (#[trigger] before[i]).word == other;
                            assert(after[i].word == other);
                        }
                    }
                }
            },
        }
    }
    assert(all.take(words.len() as int) =~= all);
    list
}

// Ranking

/// Whether an entry ranks before another: by a higher frequency, or at the same frequency by the
/// order of the words.
pub open spec fn ranks_before(a: FrequencyText, b: FrequencyText) -> bool {
    a.frequency > b.frequency || (a.frequency == b.frequency && precedes(a.word, b.word))
}

/// Whether the entries of a list are in the order of their ranks.
pub open spec fn in_rank_order(list: Seq<FrequencyText>) -> bool {
    forall|i: int, j: int|
        0 <= i < j < list.len() ==> ranks_before(#[trigger] list[i], #[trigger] list[j])
}

/// Whether a list names each word that occurs at least `min_frequency` times, and at all, once,
/// with how often it occurs, in the order of the ranks.
pub open spec fn is_ranking(
    list: Seq<FrequencyText>,
    words: Seq<Seq<char>>,
    min_frequency: u64,
) -> bool {
    &&& in_rank_order(list)
    &&& forall|i: int|
        0 <= i < list.len() ==> (#[trigger] list[i]).frequency == occurrences(
            words,
            list[i].word,
        ) && list[i].frequency >= 1 && list[i].frequency >= min_frequency
    &&& forall|word: Seq<char>|
        #[trigger] occurrences(words, word) >= 1 && occurrences(words, word) >= min_frequency
            ==> exists|i: int| 0 <= i < list.len() && (#[trigger] list[i]).word == word
}

proof fn lemma_ranks_are_transitive(a: FrequencyText, b: FrequencyText, c: FrequencyText)
    requires
        ranks_before(a, b),
        ranks_before(b, c),
    ensures
        ranks_before(a, c),
{
    if a.frequency == b.frequency && b.frequency == c.frequency {
        law_precedes_is_transitive(a.word, b.word, c.word);
    }
}

/// There is but one ranking of a list of words.
pub proof fn law_ranking_is_determined(
    a: Seq<FrequencyText>,
    b: Seq<FrequencyText>,
    words: Seq<Seq<char>>,
    min_frequency: u64,
)
    requires
        is_ranking(a, words, min_frequency),
        is_ranking(b, words, min_frequency),
    ensures
        a == b,
{
    let before = |x: FrequencyText, y: FrequencyText| ranks_before(x, y);
    assert forall|x: FrequencyText, y: FrequencyText| #[trigger] before(x, y) implies !before(
        y,
        x,
    ) by {
        law_precedes_is_total(x.word, y.word);
    }
    assert forall|item: FrequencyText| #[trigger] a.contains(item) <==> b.contains(item) by {
        if a.contains(item) {
            lemma_ranked_is_in(item, a, b, words, min_frequency);
        }
        if b.contains(item) {
            lemma_ranked_is_in(item, b, a, words, min_frequency);
        }
    }
    lemma_ordered_lists_agree(a, b, before);
}

/// The ranking of a list of words.
pub open spec fn ranking_of(words: Seq<Seq<char>>, min_frequency: u64) -> Seq<FrequencyText> {
    choose|list: Seq<FrequencyText>| is_ranking(list, words, min_frequency)
}

proof fn lemma_ranked_is_in(
    item: FrequencyText,
    a: Seq<FrequencyText>,
    b: Seq<FrequencyText>,
    words: Seq<Seq<char>>,
    min_frequency: u64,
)
    requires
        is_ranking(a, words, min_frequency),
        is_ranking(b, words, min_frequency),
        a.contains(item),
    ensures
        b.contains(item),
{
    let i = choose|i: int| 0 <= i < a.len() && a[i] == item;
    assert(occurrences(words, a[i].word) >= 1);
    let j = choose|j: int| 0 <= j < b.len() && (#[trigger] b[j]).word == item.word;
    assert(b[j] == item);
}

proof fn lemma_insert_keeps_order(list: Seq<FrequencyText>, place: int, entry: FrequencyText)
    requires
        in_rank_order(list),
        0 <= place <= list.len(),
        forall|i: int| 0 <= i < place ==> ranks_before(#[trigger] list[i], entry),
        forall|i: int| place <= i < list.len() ==> ranks_before(entry, #[trigger] list[i]),
    ensures
        in_rank_order(list.insert(place, entry)),
{
    let after = list.insert(place, entry);
    assert forall|i: int, j: int| 0 <= i < j < after.len() implies ranks_before(
        #[trigger] after[i],
        #[trigger] after[j],
    ) by {
        let a = if i < place {
            i
        } else {
            i - 1
        };
        let b = if j < place {
            j
        } else {
            j - 1
        };
        if i != place {
            assert(after[i] == list[a]);
        }
        if j != place {
            assert(after[j] == list[b]);
        }
        if i != place && j != place {
            assert(ranks_before(list[a], list[b]));
        }
    }
}

/// Where an entry belongs in a ranked list of other words.
proof fn lemma_rank_exists(list: Seq<FrequencyText>, entry: FrequencyText) -> (place: int)
    requires
        in_rank_order(list),
        forall|i: int| 0 <= i < list.len() ==> (#[trigger] list[i]).word != entry.word,
    ensures
        0 <= place <= list.len(),
        forall|i: int| 0 <= i < place ==> ranks_before(#[trigger] list[i], entry),
        forall|i: int| place <= i < list.len() ==> ranks_before(entry, #[trigger] list[i]),
    decreases list.len(),
{
    if list.len() == 0 {
        0
    } else {
        let last = list.len() - 1;
        assert(list[last].word != entry.word);
        law_precedes_is_total(list[last].word, entry.word);
        if ranks_before(list[last], entry) {
            assert forall|i: int| 0 <= i < list.len() implies ranks_before(
                #[trigger] list[i],
                entry,
            ) by {
                if i < last {
                    lemma_ranks_are_transitive(list[i], list[last], entry);
                }
            }
            list.len() as int
        } else {
            let shorter = list.drop_last();
            assert forall|i: int| 0 <= i < shorter.len() implies (#[trigger] shorter[i]).word
                != entry.word by {
                assert(shorter[i] == list[i]);
            }
            let place = lemma_rank_exists(shorter, entry);
            assert forall|i: int| 0 <= i < place implies ranks_before(
                #[trigger] list[i],
                entry,
            ) by {
                assert(shorter[i] == list[i]);
            }
            assert forall|i: int| place <= i < list.len() implies ranks_before(
                entry,
                #[trigger] list[i],
            ) by {
                if i < last {
                    assert(shorter[i] == list[i]);
                }
            }
            place
        }
    }
}

/// Whether a list ranks those of the words that are among the first `k`.
spec fn ranks_first(
    list: Seq<FrequencyText>,
    words: Seq<Seq<char>>,
    k: int,
    min_frequency: u64,
) -> bool {
    &&& in_rank_order(list)
    &&& forall|i: int|
        0 <= i < list.len() ==> (#[trigger] list[i]).frequency == occurrences(
            words,
            list[i].word,
        ) && list[i].frequency >= min_frequency && occurrences(words.take(k), list[i].word) >= 1
    &&& forall|word: Seq<char>|
        #[trigger] occurrences(words.take(k), word) >= 1 && occurrences(words, word)
            >= min_frequency ==> exists|i: int|
            0 <= i < list.len() && (#[trigger] list[i]).word == word
}

proof fn lemma_first_can_be_ranked(words: Seq<Seq<char>>, k: int, min_frequency: u64) -> (list: Seq<
    FrequencyText,
>)
    requires
        0 <= k <= words.len() <= u64::MAX,
    ensures
        ranks_first(list, words, k, min_frequency),
    decreases k,
{
    if k == 0 {
        assert(words.take(0) =~= Seq::empty());
        Seq::empty()
    } else {
        let before = lemma_first_can_be_ranked(words, k - 1, min_frequency);
        let done = words.take(k - 1);
        let next = words.take(k);
        let word = words[k - 1];
        assert(next.drop_last() =~= done);
        assert(next.last() == word);
        assert forall|other: Seq<char>| other != word implies #[trigger] occurrences(next, other)
            == occurrences(done, other) by {}
        if occurrences(words, word) < min_frequency || occurrences(done, word) >= 1 {
            assert forall|other: Seq<char>| #[trigger]
                occurrences(next, other) >= 1 && occurrences(words, other)
                    >= min_frequency implies exists|i: int|
                0 <= i < before.len() && (#[trigger] before[i]).word == other by {
                assert(occurrences(done, other) >= 1);
            }
            before
        } else {
            lemma_occurrences_bound(words, word);
            let entry = FrequencyText { word, frequency: occurrences(words, word) as u64 };
            let place = lemma_rank_exists(before, entry);
            let after = before.insert(place, entry);
            lemma_insert_keeps_order(before, place, entry);
            assert forall|i: int| 0 <= i < after.len() implies (#[trigger] after[i]).frequency
                == occurrences(words, after[i].word) && after[i].frequency >= min_frequency
                && occurrences(next, after[i].word) >= 1 by {
                if i < place {
                    assert(after[i] == before[i]);
                } else if i > place {
                    assert(after[i] == before[i - 1]);
                }
            }
            assert forall|other: Seq<char>| #[trigger]
                occurrences(next, other) >= 1 && occurrences(words, other)
                    >= min_frequency implies exists|i: int|
                0 <= i < after.len() && (#[trigger] after[i]).word == other by {
                if other == word {
                    assert(after[place].word == other);
                } else {
                    assert(occurrences(done, other) >= 1);
                    let i = choose|i: int|
                        0 <= i < before.len() && (#[trigger] before[i]).word == other;
                    if i < place {
                        assert(after[i].word == other);
                    } else {
                        assert(after[i + 1].word == other);
                    }
                }
            }
            after
        }
    }
}

/// Every list of words has a ranking.
pub proof fn law_ranking_exists(words: Seq<Seq<char>>, min_frequency: u64)
    requires
        words.len() <= u64::MAX,
    ensures
        is_ranking(ranking_of(words, min_frequency), words, min_frequency),
{
    let n = words.len() as int;
    let list = lemma_first_can_be_ranked(words, n, min_frequency);
    assert(words.take(n) =~= words);
    assert(is_ranking(list, words, min_frequency));
}

/// Where the entries of a ranked list end that have at least a given frequency.
proof fn lemma_frequent_entries_come_first(list: Seq<FrequencyText>, least: u64) -> (end: int)
    requires
        in_rank_order(list),
    ensures
        0 <= end <= list.len(),
        forall|i: int| 0 <= i < end ==> (#[trigger] list[i]).frequency >= least,
        forall|i: int| end <= i < list.len() ==> (#[trigger] list[i]).frequency < least,
    decreases list.len(),
{
    if list.len() == 0 {
        0
    } else if list.last().frequency >= least {
        let last = list.len() - 1;
        assert forall|i: int| 0 <= i < list.len() implies (#[trigger] list[i]).frequency
            >= least by {
            if i < last {
                assert(ranks_before(list[i], list[last]));
            }
        }
        list.len() as int
    } else {
        let shorter = list.drop_last();
        let end = lemma_frequent_entries_come_first(shorter, least);
        assert forall|i: int| 0 <= i < end implies (#[trigger] list[i]).frequency >= least by {
            assert(shorter[i] == list[i]);
        }
        assert forall|i: int| end <= i < list.len() implies (#[trigger] list[i]).frequency
            < least by {
            if i < shorter.len() {
                assert(shorter[i] == list[i]);
            }
        }
        end
    }
}

/// A higher least frequency gives a beginning of the same ranking; what it leaves out occurs less
/// often.
pub proof fn law_higher_least_frequency_gives_a_beginning(
    all: Seq<FrequencyText>,
    fewer: Seq<FrequencyText>,
    words: Seq<Seq<char>>,
    low: u64,
    high: u64,
)
    requires
        low <= high,
        is_ranking(all, words, low),
        is_ranking(fewer, words, high),
    ensures
        fewer.is_prefix_of(all),
        forall|i: int|
            fewer.len() <= i < all.len() ==> (#[trigger] all[i]).frequency < high,
{
    let end = lemma_frequent_entries_come_first(all, high);
    let first = all.take(end);
    assert forall|word: Seq<char>| #[trigger]
        occurrences(words, word) >= 1 && occurrences(words, word) >= high implies exists|i: int|
        0 <= i < first.len() && (#[trigger] first[i]).word == word by {
        let i = choose|i: int| 0 <= i < all.len() && (#[trigger] all[i]).word == word;
        assert(all[i].frequency >= high);
        assert(first[i].word == word);
    }
    assert(is_ranking(first, words, high));
    law_ranking_is_determined(fewer, first, words, high);
}

/// The ranking for a higher least frequency is a beginning of that for a lower one; what it leaves
/// out occurs less often.
pub proof fn law_rankings_are_nested(words: Seq<Seq<char>>, low: u64, high: u64)
    requires
        low <= high,
        words.len() <= u64::MAX,
    ensures
        ranking_of(words, high).is_prefix_of(ranking_of(words, low)),
        forall|i: int|
            ranking_of(words, high).len() <= i < ranking_of(words, low).len() ==> (
            #[trigger] ranking_of(words, low)[i]).frequency < high,
{
    law_ranking_exists(words, low);
    law_ranking_exists(words, high);
    law_higher_least_frequency_gives_a_beginning(
        ranking_of(words, low),
        ranking_of(words, high),
        words,
        low,
        high,
    );
}

/// No word occurs twice in a ranking.
pub proof fn law_ranked_words_differ(
    list: Seq<FrequencyText>,
    words: Seq<Seq<char>>,
    min_frequency: u64,
)
    requires
        is_ranking(list, words, min_frequency),
    ensures
        forall|i: int, j: int|
            0 <= j < i < list.len() ==> (#[trigger] list[j]).word != (#[trigger] list[i]).word,
{
    assert forall|i: int, j: int| 0 <= j < i < list.len() implies (#[trigger] list[j]).word != (
    #[trigger] list[i]).word by {
        assert(ranks_before(list[j], list[i]));
        law_precedes_is_total(list[j].word, list[i].word);
    }
}

/// Where an entry belongs in a ranked list of other words.
fn find_rank(list: &[FrequencyEntry], entry: &FrequencyEntry) -> (place: usize)
    requires
        in_rank_order(views(list@)),
        forall|i: int| 0 <= i < list.len() ==> (#[trigger] list@[i]).word@ != entry.word@,
    ensures
        place <= list.len(),
        forall|i: int| 0 <= i < place ==> ranks_before((#[trigger] list@[i])@, entry@),
        forall|i: int| place <= i < list.len() ==> ranks_before(entry@, (#[trigger] list@[i])@),
{
    let mut low: usize = 0;
    let mut high: usize = list.len();
    let ghost all = views(list@);
    while low < high
        invariant
            all == views(list@),
            in_rank_order(all),
            low <= high <= list.len(),
            forall|i: int| 0 <= i < list.len() ==> (#[trigger] list@[i]).word@ != entry.word@,
            forall|i: int| 0 <= i < low ==> ranks_before((#[trigger] list@[i])@, entry@),
            forall|i: int| high <= i < list.len() ==> ranks_before(entry@, (#[trigger] list@[i])@),
        decreases high - low,
    {
        let middle: usize = low + (high - low) / 2;
        let other: &FrequencyEntry = &list[middle];
        assert(other.word@ != entry.word@);
        proof {
            law_precedes_is_total(other.word@, entry.word@);
        }
        let before: bool = if other.frequency != entry.frequency {
            other.frequency > entry.frequency
        } else {
            match compare(other.word.as_str(), entry.word.as_str()) {
                Order::Before => true,
                _ => false,
            }
        };
        if before {
            assert forall|i: int| 0 <= i < middle + 1 implies ranks_before(
                (#[trigger] list@[i])@,
                entry@,
            ) by {
                if i < middle {
                    assert(ranks_before(all[i], all[middle as int]));
                    lemma_ranks_are_transitive(all[i], all[middle as int], entry@);
                }
            }
            low = middle + 1;
        } else {
            assert forall|i: int| middle <= i < list.len() implies ranks_before(
                entry@,
                (#[trigger] list@[i])@,
            ) by {
                if middle < i {
                    assert(ranks_before(all[middle as int], all[i]));
                    lemma_ranks_are_transitive(entry@, all[middle as int], all[i]);
                }
            }
            high = middle;
        }
    }
    low
}

proof fn lemma_insert_contains<A>(list: Seq<A>, place: int, item: A, other: A)
    requires
        0 <= place <= list.len(),
    ensures
        list.insert(place, item).contains(other) <==> other == item || list.contains(other),
{
    let longer = list.insert(place, item);
    assert(longer[place] == item);
    if list.contains(other) {
        let i = choose|i: int| 0 <= i < list.len() && list[i] == other;
        assert(longer[if i < place {
            i
        } else {
            i + 1
        }] == other);
    }
    if longer.contains(other) && other != item {
        let i = choose|i: int| 0 <= i < longer.len() && longer[i] == other;
        assert(list[if i < place {
            i
        } else {
            i - 1
        }] == other);
    }
}

/// Puts an entry where it belongs in a ranked list of other words.
fn insert_ranked(list: &mut Vec<FrequencyEntry>, entry: FrequencyEntry)
    requires
        in_rank_order(views(old(list)@)),
        forall|i: int|
            0 <= i < old(list)@.len() ==> (#[trigger] old(list)@[i]).word@ != entry.word@,
    ensures
        in_rank_order(views(final(list)@)),
        exists|place: int|
            0 <= place <= old(list)@.len() && views(final(list)@) == #[trigger] views(
                old(list)@,
            ).insert(place, entry@),
{
    let ghost earlier = list@;
    let ghost ranked = views(list@);
    let ghost text = entry@;
    let place: usize = find_rank(list, &entry);
    list.insert(place, entry);
    proof {
        assert(views(list@) =~= ranked.insert(place as int, text));
        assert forall|i: int| 0 <= i < place implies ranks_before(#[trigger] ranked[i], text) by {
            assert(ranked[i] == earlier[i]@);
        }
        assert forall|i: int| place <= i < ranked.len() implies ranks_before(
            text,
            #[trigger] ranked[i],
        ) by {
            assert(ranked[i] == earlier[i]@);
        }
        lemma_insert_keeps_order(ranked, place as int, text);
    }
}

/// Ranks the words of a list that occur often enough.
pub fn tally_words(words: &[String], min_frequency: u64) -> (entries: Vec<FrequencyEntry>)
    ensures
        is_ranking(views(entries@), views(words@), min_frequency),
        views(entries@) == ranking_of(views(words@), min_frequency),
{
    let counted: Vec<FrequencyEntry> = count_words(words);
    let ghost all = counted@;
    let ghost count = views(counted@);
    let ghost texts = views(words@);
    let mut entries: Vec<FrequencyEntry> = Vec::new();
    for entry in it: counted
        invariant
            it.seq() == all,
            count == views(all),
            is_count(count, texts),
            in_rank_order(views(entries@)),
            forall|text: FrequencyText| #[trigger]
                views(entries@).contains(text) <==> text.frequency >= min_frequency && count.take(
                    it.index(),
                ).contains(text),
    {
        let ghost k = it.index();
        let ghost ranked = views(entries@);
        let ghost text = entry@;
        assert(text == count[k]);
        assert(count.take(k + 1) =~= count.take(k).insert(k, text));
        if entry.frequency >= min_frequency {
            assert forall|i: int| 0 <= i < entries.len() implies (#[trigger] entries@[i]).word@
                != entry.word@ by {
                assert(ranked.contains(ranked[i]));
                let m = choose|m: int|
                    0 <= m < count.take(k).len() && count.take(k)[m] == ranked[i];
                assert(count[m].word != count[k].word);
            }
            insert_ranked(&mut entries, entry);
            proof {
                let place = choose|place: int|
                    0 <= place <= ranked.len() && views(entries@) == #[trigger] ranked.insert(
                        place,
                        text,
                    );
                assert forall|other: FrequencyText| #[trigger]
                    views(entries@).contains(other) <==> other.frequency >= min_frequency
                        && count.take(k + 1).contains(other) by {
                    lemma_insert_contains(ranked, place, text, other);
                    lemma_insert_contains(count.take(k), k, text, other);
                }
            }
        } else {
            assert forall|other: FrequencyText| #[trigger]
                views(entries@).contains(other) <==> other.frequency >= min_frequency
                    && count.take(k + 1).contains(other) by {
                lemma_insert_contains(count.take(k), k, text, other);
            }
        }
    }
    proof {
        let found = views(entries@);
        assert(count.take(count.len() as int) =~= count);
        assert forall|i: int| 0 <= i < found.len() implies (#[trigger] found[i]).frequency
            == occurrences(texts, found[i].word) && found[i].frequency >= 1
            && found[i].frequency >= min_frequency by {
            assert(found.contains(found[i]));
        }
        assert forall|word: Seq<char>| #[trigger]
            occurrences(texts, word) >= 1 && occurrences(texts, word)
                >= min_frequency implies exists|i: int|
            0 <= i < found.len() && (#[trigger] found[i]).word == word by {
            let k = choose|k: int| 0 <= k < count.len() && (#[trigger] count[k]).word == word;
            assert(count.contains(count[k]));
            assert(found.contains(count[k]));
        }
        assert(is_ranking(found, texts, min_frequency));
        law_ranking_is_determined(found, ranking_of(texts, min_frequency), texts, min_frequency);
    }
    entries
}

proof fn lemma_occurrence_is_member(words: Seq<Seq<char>>, word: Seq<char>)
    requires
        occurrences(words, word) >= 1,
    ensures
        exists|i: int| 0 <= i < words.len() && #[trigger] words[i] == word,
    decreases words.len(),
{
    if words.last() == word {
        assert(words[words.len() - 1] == word);
    } else {
        lemma_occurrence_is_member(words.drop_last(), word);
        let i = choose|i: int|
            0 <= i < words.drop_last().len() && #[trigger] words.drop_last()[i] == word;
        assert(words[i] == word);
    }
}

proof fn lemma_counted_words_occur(tokens: Seq<Seq<char>>, include_single_chars: bool, i: int)
    requires
        0 <= i < counted_words(tokens, include_single_chars).len(),
    ensures
        occurs_in(counted_words(tokens, include_single_chars)[i], concatenated(tokens)),
    decreases tokens.len(),
{
    let before = counted_words(tokens.drop_last(), include_single_chars);
    let word = counted_words(tokens, include_single_chars)[i];
    let whole = concatenated(tokens);
    if i < before.len() {
        let head = concatenated(tokens.drop_last());
        lemma_counted_words_occur(tokens.drop_last(), include_single_chars, i);
        assert(head =~= whole.subrange(0, head.len() as int));
        lemma_occurs_in_is_transitive(word, head, whole);
    } else {
        lemma_trimmed_is_part(tokens.last());
        lemma_piece_occurs(tokens, tokens.len() - 1);
        lemma_occurs_in_is_transitive(word, tokens.last(), whole);
    }
}

/// The words of a text with how often they occur, the most frequent first.
pub fn extract_frequencies(
    jieba: &Jieba,
    text: &str,
    hmm: bool,
    min_frequency: u64,
    include_single_chars: bool,
) -> (entries: Vec<FrequencyEntry>)
    requires
        encode_utf8(text@).len() <= u32::MAX,
    ensures
        is_ranking(
            views(entries@),
            counted_words(cut_tokens(jieba, text@, hmm), include_single_chars),
            min_frequency,
        ),
        views(entries@) == ranking_of(
            counted_words(cut_tokens(jieba, text@, hmm), include_single_chars),
            min_frequency,
        ),
        forall|i: int|
            0 <= i < entries.len() ==> occurs_in((#[trigger] entries@[i]).word@, text@)
                && is_counted(entries@[i].word@, include_single_chars) && in_pinyin_table(
                entries@[i].word@,
            ),
        forall|k: int|
            0 <= k < cut_tokens(jieba, text@, hmm).len() ==> {
                let word = trimmed(#[trigger] cut_tokens(jieba, text@, hmm)[k]);
                let count = cut_tokens(jieba, text@, hmm).filter(
                    |token: Seq<char>| trimmed(token) == word,
                ).len();
                word.len() > 0 && (include_single_chars || word.len() > 1) && (forall|c: int|
                    0 <= c < word.len() ==> plain_pinyin(#[trigger] word[c]) is Some) && count
                    >= min_frequency ==> exists|i: int|
                    0 <= i < entries.len() && (#[trigger] entries@[i]).word@ == word
                        && entries@[i].frequency == count
            },
        forall|i: int|
            0 <= i < entries.len() ==> (#[trigger] entries@[i]).frequency >= min_frequency
                && entries@[i].frequency == cut_tokens(jieba, text@, hmm).filter(
                |token: Seq<char>| trimmed(token) == entries@[i].word@,
            ).len(),
{
    let tokens: Vec<String> = cut_text(jieba, text, hmm);
    let words: Vec<String> = select_words(&tokens, include_single_chars);
    let entries: Vec<FrequencyEntry> = tally_words(&words, min_frequency);
    proof {
        let texts = views(words@);
        assert forall|i: int| 0 <= i < entries.len() implies occurs_in(
            (#[trigger] entries@[i]).word@,
            text@,
        ) && is_counted(entries@[i].word@, include_single_chars) && in_pinyin_table(
            entries@[i].word@,
        ) by {
            let word = views(entries@)[i].word;
            lemma_occurrence_is_member(texts, word);
            let k = choose|k: int| 0 <= k < texts.len() && #[trigger] texts[k] == word;
            lemma_counted_words_occur(views(tokens@), include_single_chars, k);
            lemma_counted_words_count(views(tokens@), include_single_chars, k);
            assert(in_pinyin_table(words@[k]@));
        }
        let cut = cut_tokens(jieba, text@, hmm);
        let list = views(entries@);
        assert forall|k: int| 0 <= k < cut.len() implies {
            let word = trimmed(#[trigger] cut[k]);
            let count = cut.filter(|token: Seq<char>| trimmed(token) == word).len();
            word.len() > 0 && (include_single_chars || word.len() > 1) && (forall|c: int|
                0 <= c < word.len() ==> plain_pinyin(#[trigger] word[c]) is Some) && count
                >= min_frequency ==> exists|i: int|
                0 <= i < entries.len() && (#[trigger] entries@[i]).word@ == word
                    && entries@[i].frequency == count
        } by {
            let word = trimmed(cut[k]);
            let gives = |token: Seq<char>| trimmed(token) == word;
            if word.len() > 0 && (include_single_chars || word.len() > 1) && (forall|c: int|
                0 <= c < word.len() ==> plain_pinyin(#[trigger] word[c]) is Some) && cut.filter(
                gives,
            ).len() >= min_frequency {
                cut.lemma_filter_contains(gives, k);
                law_frequent_word_is_listed(list, cut, include_single_chars, min_frequency, word);
                let i = choose|i: int|
                    0 <= i < list.len() && (#[trigger] list[i]).word == word && list[i].frequency
                        == cut.filter(|token: Seq<char>| trimmed(token) == word).len();
                assert(entries@[i].word@ == word);
            }
        }
        assert forall|i: int| 0 <= i < entries.len() implies (#[trigger] entries@[i]).frequency
            >= min_frequency && entries@[i].frequency == cut.filter(
            |token: Seq<char>| trimmed(token) == entries@[i].word@,
        ).len() by {
            law_listed_word_is_frequent(list, cut, include_single_chars, min_frequency, i);
            assert(list[i] == entries@[i]@);
        }
    }
    entries
}

proof fn lemma_counted_words_count(tokens: Seq<Seq<char>>, include_single_chars: bool, i: int)
    requires
        0 <= i < counted_words(tokens, include_single_chars).len(),
    ensures
        is_counted(counted_words(tokens, include_single_chars)[i], include_single_chars),
    decreases tokens.len(),
{
    if i < counted_words(tokens.drop_last(), include_single_chars).len() {
        lemma_counted_words_count(tokens.drop_last(), include_single_chars, i);
    }
}

/// A word that counts can be spoken: it has a syllable for each character.
pub proof fn law_counted_word_can_be_spoken(word: Seq<char>, include_single_chars: bool)
    requires
        is_counted(word, include_single_chars),
    ensures
        pronunciation(word, readings_of(word)) matches Ok(syllables) && syllables.len()
            == word.len(),
{
    let readings = readings_of(word);
    let results = Seq::new(word.len(), |i: int| spoken(word, word[i], readings[i]));
    assert forall|i: int| 0 <= i < results.len() implies #[trigger] results[i] is Ok by {
        assert(plain_pinyin(word[i]) is Some);
    }
    lemma_collected_succeeds(results);
}

// The list as a text

/// The lines of a frequency list: word, tab, frequency.
pub open spec fn frequency_lines(entries: Seq<FrequencyText>) -> Seq<char>
    decreases entries.len(),
{
    if entries.len() == 0 {
        Seq::empty()
    } else {
        frequency_lines(entries.drop_last()) + entries.last().word + seq!['\t'] + decimal(
            entries.last().frequency as nat,
        ) + seq!['\n']
    }
}

/// A frequency list with the line that explains its columns.
pub open spec fn frequency_text(entries: Seq<FrequencyText>) -> Seq<char> {
    "# 词语\t词频\t拼音（可选；多音字可填空格分隔的无声调拼音）\n"@ + frequency_lines(entries)
}

/// Writes the frequency list.
pub fn render_frequency_tsv(entries: &[FrequencyEntry]) -> (output: String)
    ensures
        output@ == frequency_text(views(entries@)),
{
    let mut output: String =
        "# 词语\t词频\t拼音（可选；多音字可填空格分隔的无声调拼音）\n".to_owned();
    let ghost head = output@;
    let ghost all = views(entries@);
    assert(all.take(0) =~= Seq::empty());
    assert(output@ =~= head + frequency_lines(all.take(0)));
    for i in 0..entries.len()
        invariant
            all == views(entries@),
            output@ == head + frequency_lines(all.take(i as int)),
    {
        assert(all.take(i + 1).drop_last() =~= all.take(i as int));
        assert(all.take(i + 1).last() == entries@[i as int]@);
        output.append(entries[i].word.as_str());
        output.push('\t');
        push_decimal(&mut output, entries[i].frequency);
        output.push('\n');
        assert(output@ =~= head + frequency_lines(all.take(i + 1)));
    }
    assert(all.take(entries.len() as int) =~= all);
    output
}

} // verus!
