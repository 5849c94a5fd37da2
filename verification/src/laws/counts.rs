//! Which words of a text are listed, and how often they occur.

use crate::entry::FrequencyText;
use crate::foreign::plain_pinyin;
use crate::frequency::{
    counted_words, frequency_lines, frequency_text, is_counted, is_ranking, occurrences,
};
use crate::text::{decimal, law_precedes_is_total, precedes, trimmed};
use vstd::prelude::*;

verus! {

/// The tokens that give a word.
spec fn tokens_of(tokens: Seq<Seq<char>>, word: Seq<char>) -> Seq<Seq<char>> {
    tokens.filter(|token: Seq<char>| trimmed(token) == word)
}

proof fn lemma_occurrences_by_tokens(tokens: Seq<Seq<char>>, single: bool, word: Seq<char>)
    ensures
        occurrences(counted_words(tokens, single), word) == if is_counted(word, single) {
            tokens_of(tokens, word).len()
        } else {
            0
        },
    decreases tokens.len(),
{
    reveal(Seq::filter);
    let words = counted_words(tokens, single);
    if tokens.len() > 0 {
        let before = counted_words(tokens.drop_last(), single);
        lemma_occurrences_by_tokens(tokens.drop_last(), single, word);
        let last = trimmed(tokens.last());
        if is_counted(last, single) {
            assert(words.drop_last() =~= before);
            assert(words.last() == last);
        }
    }
}

/// The words that count are those of all tokens that are not blank, that are longer than one
/// character or may be single, and of which each character has pinyin, in the order of the tokens.
/// No other reason leaves a token out.
pub proof fn law_words_that_count(tokens: Seq<Seq<char>>, include_single_chars: bool)
    ensures
        counted_words(tokens, include_single_chars) == tokens.map_values(
            |token: Seq<char>| trimmed(token),
        ).filter(
            |word: Seq<char>|
                {
                    &&& word.len() > 0
                    &&& include_single_chars || word.len() > 1
                    &&& forall|i: int| 0 <= i < word.len() ==> plain_pinyin(#[trigger] word[i]) is Some
                },
        ),
    decreases tokens.len(),
{
    reveal(Seq::filter);
    let core = |token: Seq<char>| trimmed(token);
    if tokens.len() > 0 {
        law_words_that_count(tokens.drop_last(), include_single_chars);
        assert(tokens.map_values(core).drop_last() =~= tokens.drop_last().map_values(core));
        assert(tokens.map_values(core).last() == trimmed(tokens.last()));
    } else {
        assert(tokens.map_values(core) =~= Seq::empty());
    }
}

/// How often a word occurs is the number of places at which it stands.
pub proof fn law_occurrences_are_places(words: Seq<Seq<char>>, word: Seq<char>)
    ensures
        occurrences(words, word) == words.filter(|other: Seq<char>| other == word).len(),
    decreases words.len(),
{
    reveal(Seq::filter);
    if words.len() > 0 {
        law_occurrences_are_places(words.drop_last(), word);
    }
}

/// A word of any length is listed with the number of tokens that give it, unless it is a single
/// character and these are not wanted, a character of it has no pinyin, or the tokens are fewer
/// than asked for.
pub proof fn law_frequent_word_is_listed(
    list: Seq<FrequencyText>,
    tokens: Seq<Seq<char>>,
    include_single_chars: bool,
    min_frequency: u64,
    word: Seq<char>,
)
    requires
        is_ranking(list, counted_words(tokens, include_single_chars), min_frequency),
        word.len() > 0,
        include_single_chars || word.len() > 1,
        forall|i: int| 0 <= i < word.len() ==> plain_pinyin(#[trigger] word[i]) is Some,
        tokens.filter(|token: Seq<char>| trimmed(token) == word).len() >= 1,
        tokens.filter(|token: Seq<char>| trimmed(token) == word).len() >= min_frequency,
    ensures
        exists|i: int|
            0 <= i < list.len() && (#[trigger] list[i]).word == word && list[i].frequency
                == tokens.filter(|token: Seq<char>| trimmed(token) == word).len(),
{
    lemma_occurrences_by_tokens(tokens, include_single_chars, word);
    assert(is_counted(word, include_single_chars));
    assert(tokens_of(tokens, word) == tokens.filter(|token: Seq<char>| trimmed(token) == word));
    let words = counted_words(tokens, include_single_chars);
    assert(occurrences(words, word) >= 1);
    let i = choose|i: int| 0 <= i < list.len() && (#[trigger] list[i]).word == word;
    assert(list[i].frequency == occurrences(words, word));
}

/// A listed word is given by as many tokens as its frequency says, at least one and at least as
/// many as asked for; each character of it has pinyin, and it is a single character only where
/// these are wanted. The more frequent words come first, words of one frequency in the order of
/// texts, and no word comes twice.
pub proof fn law_listed_word_is_frequent(
    list: Seq<FrequencyText>,
    tokens: Seq<Seq<char>>,
    include_single_chars: bool,
    min_frequency: u64,
    i: int,
)
    requires
        is_ranking(list, counted_words(tokens, include_single_chars), min_frequency),
        0 <= i < list.len(),
    ensures
        list[i].word.len() > 0,
        include_single_chars || list[i].word.len() > 1,
        forall|k: int|
            0 <= k < list[i].word.len() ==> plain_pinyin(#[trigger] list[i].word[k]) is Some,
        list[i].frequency == tokens.filter(
            |token: Seq<char>| trimmed(token) == list[i].word,
        ).len(),
        list[i].frequency >= 1,
        list[i].frequency >= min_frequency,
        forall|j: int|
            0 <= j < i ==> {
                ||| (#[trigger] list[j]).frequency > list[i].frequency
                ||| list[j].frequency == list[i].frequency && precedes(list[j].word, list[i].word)
            },
        forall|j: int| 0 <= j < list.len() && j != i ==> (#[trigger] list[j]).word != list[i].word,
{
    let word = list[i].word;
    let words = counted_words(tokens, include_single_chars);
    lemma_occurrences_by_tokens(tokens, include_single_chars, word);
    assert(tokens_of(tokens, word) == tokens.filter(|token: Seq<char>| trimmed(token) == word));
    assert(list[i].frequency == occurrences(words, word));
    assert(is_counted(word, include_single_chars));
    assert forall|j: int| 0 <= j < list.len() && j != i implies (#[trigger] list[j]).word
        != word by {
        law_precedes_is_total(list[j].word, word);
        assert(list[j].frequency == occurrences(words, list[j].word));
    }
}

/// A frequency list has one line for each entry: the word, a tab and the frequency.
pub proof fn law_frequencies_are_written_line_by_line(
    a: Seq<FrequencyText>,
    b: Seq<FrequencyText>,
    entry: FrequencyText,
)
    ensures
        frequency_text(Seq::empty())
            == "# 词语\t词频\t拼音（可选；多音字可填空格分隔的无声调拼音）\n"@,
        frequency_text(a + b) == frequency_text(a) + frequency_text(b).skip(
            frequency_text(Seq::empty()).len() as int,
        ),
        frequency_text(seq![entry]) == frequency_text(Seq::empty()) + entry.word + seq!['\t']
            + decimal(entry.frequency as nat) + seq!['\n'],
{
    let none = Seq::<FrequencyText>::empty();
    let head = "# 词语\t词频\t拼音（可选；多音字可填空格分隔的无声调拼音）\n"@;
    assert(seq![entry].drop_last() =~= none);
    assert(frequency_lines(none) =~= Seq::empty());
    assert(frequency_text(none) =~= head);
    assert(frequency_text(seq![entry]) =~= head + entry.word + seq!['\t'] + decimal(
        entry.frequency as nat,
    ) + seq!['\n']);
    lemma_lines_of_both(a, b);
    assert(frequency_text(b).skip(head.len() as int) =~= frequency_lines(b));
    assert(frequency_text(a + b) =~= frequency_text(a) + frequency_lines(b));
}

proof fn lemma_lines_of_both(a: Seq<FrequencyText>, b: Seq<FrequencyText>)
    ensures
        frequency_lines(a + b) == frequency_lines(a) + frequency_lines(b),
    decreases b.len(),
{
    if b.len() == 0 {
        assert(a + b =~= a);
        assert(frequency_lines(a) + frequency_lines(b) =~= frequency_lines(a));
    } else {
        assert((a + b).drop_last() =~= a + b.drop_last());
        assert((a + b).last() == b.last());
        lemma_lines_of_both(a, b.drop_last());
        assert(frequency_lines(a + b) =~= frequency_lines(a) + frequency_lines(b));
    }
}

} // verus!
