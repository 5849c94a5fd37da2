//! Codes of words and entries.

use crate::encode::{
    dictionary_lines, dictionary_text, encoded_entries, encoded_entry, pronunciation, readings_of,
    spoken, word_code,
};
use crate::entry::{EncodedText, WordText};
use crate::error::collected;
use crate::foreign::{lowercase, plain_pinyin};
use crate::laws::texts::law_trimming_cuts_white_space_off;
use crate::syllable::{first_key, normalized, normalized_all, syllable_code, umlauts_as_v};
use crate::text::{decimal, is_white_space, trimmed_end, CharClass};
use vstd::prelude::*;

verus! {

// Lists of results

/// Results are collected if none is an error, each value at its place; otherwise the first error
/// is what comes of them.
pub proof fn law_results_are_collected<T, E>(results: Seq<Result<T, E>>)
    ensures
        match collected(results) {
            Ok(values) => {
                &&& values.len() == results.len()
                &&& forall|i: int|
                    0 <= i < results.len() ==> #[trigger] results[i] == Ok::<T, E>(values[i])
            },
            Err(error) => exists|i: int|
                0 <= i < results.len() && #[trigger] results[i] == Err::<T, E>(error) && forall|
                    j: int,
                |
                    0 <= j < i ==> (#[trigger] results[j]) is Ok,
        },
    decreases results.len(),
{
    if results.len() > 0 {
        let before = results.drop_last();
        let n = before.len() as int;
        law_results_are_collected(before);
        match collected(before) {
            Ok(values) => {
                assert forall|j: int| 0 <= j < n implies #[trigger] results[j] == Ok::<T, E>(
                    values[j],
                ) by {
                    assert(before[j] == results[j]);
                }
                assert(results[n] == results.last());
            },
            Err(error) => {
                let i = choose|i: int|
                    0 <= i < before.len() && #[trigger] before[i] == Err::<T, E>(error) && forall|
                        j: int,
                    |
                        0 <= j < i ==> (#[trigger] before[j]) is Ok;
                assert(results[i] == Err::<T, E>(error));
                assert forall|j: int| 0 <= j < i implies (#[trigger] results[j]) is Ok by {
                    assert(before[j] == results[j]);
                }
            },
        }
    }
}

// The code of a word

/// The code of a word by the number of its syllables, where its parts are known: nothing is
/// encoded for none; one is typed in full; two are typed in full; of three the first two are typed
/// with their first keys and the third in full; of four or more the first three and the last are
/// typed with their first keys.
pub proof fn law_code_by_syllables(raw: Seq<Seq<char>>, syllables: Seq<Seq<char>>)
    ensures
        syllables.len() == 0 ==> word_code(raw, syllables) == Err::<Seq<char>, Seq<char>>(
            "不能编码空词语"@,
        ),
        syllables.len() == 1 ==> word_code(raw, syllables) == syllable_code(raw[0], syllables[0]),
        syllables.len() == 2 && syllable_code(raw[0], syllables[0]) is Ok && syllable_code(
            raw[1],
            syllables[1],
        ) is Ok ==> word_code(raw, syllables) == Ok::<Seq<char>, Seq<char>>(
            syllable_code(raw[0], syllables[0])->Ok_0 + syllable_code(raw[1], syllables[1])->Ok_0,
        ),
        syllables.len() == 3 && first_key(raw[0], syllables[0]) is Ok && first_key(
            raw[1],
            syllables[1],
        ) is Ok && syllable_code(raw[2], syllables[2]) is Ok ==> word_code(raw, syllables) == Ok::<
            Seq<char>,
            Seq<char>,
        >(
            seq![
                first_key(raw[0], syllables[0])->Ok_0,
                first_key(raw[1], syllables[1])->Ok_0,
            ] + syllable_code(raw[2], syllables[2])->Ok_0,
        ),
        syllables.len() >= 4 && first_key(raw[0], syllables[0]) is Ok && first_key(
            raw[1],
            syllables[1],
        ) is Ok && first_key(raw[2], syllables[2]) is Ok && first_key(
            raw[syllables.len() - 1],
            syllables[syllables.len() - 1],
        ) is Ok ==> word_code(raw, syllables) == Ok::<Seq<char>, Seq<char>>(
            seq![
                first_key(raw[0], syllables[0])->Ok_0,
                first_key(raw[1], syllables[1])->Ok_0,
                first_key(raw[2], syllables[2])->Ok_0,
                first_key(raw[syllables.len() - 1], syllables[syllables.len() - 1])->Ok_0,
            ],
        ),
{
    let n = syllables.len() as int;
    if word_code(raw, syllables) is Ok {
        let code = word_code(raw, syllables)->Ok_0;
        if n == 3 {
            assert(code =~= seq![
                first_key(raw[0], syllables[0])->Ok_0,
                first_key(raw[1], syllables[1])->Ok_0,
            ] + syllable_code(raw[2], syllables[2])->Ok_0);
        } else if n >= 4 {
            assert(code =~= seq![
                first_key(raw[0], syllables[0])->Ok_0,
                first_key(raw[1], syllables[1])->Ok_0,
                first_key(raw[2], syllables[2])->Ok_0,
                first_key(raw[n - 1], syllables[n - 1])->Ok_0,
            ]);
        }
    }
}

/// A word has a code only if all the syllables that are typed have what they are typed with; the
/// first that has not says what is wrong.
pub proof fn law_first_syllable_without_key_is_named(
    raw: Seq<Seq<char>>,
    syllables: Seq<Seq<char>>,
)
    ensures
        syllables.len() == 2 && syllable_code(raw[0], syllables[0]) is Err ==> word_code(
            raw,
            syllables,
        ) == syllable_code(raw[0], syllables[0]),
        syllables.len() == 2 && syllable_code(raw[0], syllables[0]) is Ok && syllable_code(
            raw[1],
            syllables[1],
        ) is Err ==> word_code(raw, syllables) == syllable_code(raw[1], syllables[1]),
        syllables.len() >= 3 && first_key(raw[0], syllables[0]) is Err ==> word_code(raw, syllables)
            == Err::<Seq<char>, Seq<char>>(first_key(raw[0], syllables[0])->Err_0),
        syllables.len() >= 3 && first_key(raw[0], syllables[0]) is Ok && first_key(
            raw[1],
            syllables[1],
        ) is Err ==> word_code(raw, syllables) == Err::<Seq<char>, Seq<char>>(
            first_key(raw[1], syllables[1])->Err_0,
        ),
        syllables.len() == 3 && first_key(raw[0], syllables[0]) is Ok && first_key(
            raw[1],
            syllables[1],
        ) is Ok && syllable_code(raw[2], syllables[2]) is Err ==> word_code(raw, syllables)
            == syllable_code(raw[2], syllables[2]),
        syllables.len() >= 4 && first_key(raw[0], syllables[0]) is Ok && first_key(
            raw[1],
            syllables[1],
        ) is Ok && first_key(raw[2], syllables[2]) is Err ==> word_code(raw, syllables) == Err::<
            Seq<char>,
            Seq<char>,
        >(first_key(raw[2], syllables[2])->Err_0),
        syllables.len() >= 4 && first_key(raw[0], syllables[0]) is Ok && first_key(
            raw[1],
            syllables[1],
        ) is Ok && first_key(raw[2], syllables[2]) is Ok && first_key(
            raw[syllables.len() - 1],
            syllables[syllables.len() - 1],
        ) is Err ==> word_code(raw, syllables) == Err::<Seq<char>, Seq<char>>(
            first_key(raw[syllables.len() - 1], syllables[syllables.len() - 1])->Err_0,
        ),
{
}

/// Of a long word only the first three syllables and the last count.
pub proof fn law_middle_syllables_do_not_matter(
    raw: Seq<Seq<char>>,
    syllables: Seq<Seq<char>>,
    other_raw: Seq<Seq<char>>,
    other: Seq<Seq<char>>,
)
    requires
        raw.len() == syllables.len() >= 4,
        other_raw.len() == other.len() >= 4,
        raw.take(3) == other_raw.take(3),
        syllables.take(3) == other.take(3),
        raw.last() == other_raw.last(),
        syllables.last() == other.last(),
    ensures
        word_code(raw, syllables) == word_code(other_raw, other),
{
    assert forall|i: int| 0 <= i < 3 implies #[trigger] raw[i] == other_raw[i] && syllables[i]
        == other[i] by {
        assert(raw.take(3)[i] == other_raw.take(3)[i]);
        assert(syllables.take(3)[i] == other.take(3)[i]);
    }
}

// Normal forms

/// The umlaut is typed as `v`, `u:` or `ü`, wherever it stands, and nothing else changes.
pub proof fn law_umlauts_are_written_as_v(s: Seq<char>, c: char, t: Seq<char>)
    ensures
        umlauts_as_v(seq!['u', ':'] + t) == seq!['v'] + umlauts_as_v(t),
        umlauts_as_v(seq!['ü'] + t) == seq!['v'] + umlauts_as_v(t),
        c != 'ü' && !(c == 'u' && t.len() > 0 && t[0] == ':') ==> umlauts_as_v(seq![c] + t)
            == seq![c] + umlauts_as_v(t),
        umlauts_as_v(Seq::empty()) == Seq::<char>::empty(),
        !(s.len() > 0 && s.last() == 'u' && t.len() > 0 && t[0] == ':') ==> umlauts_as_v(s + t)
            == umlauts_as_v(s) + umlauts_as_v(t),
    decreases s.len(),
{
    assert((seq!['u', ':'] + t).skip(2) =~= t);
    assert((seq!['ü'] + t).skip(1) =~= t);
    assert((seq![c] + t).skip(1) =~= t);
    if t.len() > 0 {
        assert((seq![c] + t)[1] == t[0]);
    }
    let whole = s + t;
    if s.len() == 0 {
        assert(whole =~= t);
        assert(umlauts_as_v(s) + umlauts_as_v(t) =~= umlauts_as_v(t));
    } else if !(s.last() == 'u' && t.len() > 0 && t[0] == ':') {
        assert(whole[0] == s[0]);
        let n: int = if s.len() >= 2 && s[0] == 'u' && s[1] == ':' {
            2
        } else {
            1
        };
        if s.len() >= 2 {
            assert(whole[1] == s[1]);
        } else if t.len() > 0 {
            assert(whole[1] == t[0]);
        }
        assert(whole.skip(n) =~= s.skip(n) + t);
        if s.len() > n {
            assert(s.skip(n).last() == s.last());
        }
        law_umlauts_are_written_as_v(s.skip(n), c, t);
        assert(umlauts_as_v(whole) =~= umlauts_as_v(s) + umlauts_as_v(t));
    }
}

/// The normal form of a syllable: the white space around it goes, capitals become small letters,
/// umlauts are written as `v`, and the digits of the tone at the end go; nothing else changes.
pub proof fn law_normal_form_by_steps(before: Seq<char>, core: Seq<char>, after: Seq<char>)
    requires
        forall|i: int| 0 <= i < before.len() ==> is_white_space(#[trigger] before[i]),
        forall|i: int| 0 <= i < after.len() ==> is_white_space(#[trigger] after[i]),
        core.len() > 0 ==> !is_white_space(core[0]) && !is_white_space(core.last()),
    ensures
        normalized(before + core + after) == trimmed_end(
            umlauts_as_v(lowercase(core)),
            CharClass::ToneDigit,
        ),
{
    law_trimming_cuts_white_space_off(before, core, after);
}

/// Each syllable of a list has its normal form at its place.
pub proof fn law_normal_forms_keep_places(list: Seq<Seq<char>>)
    ensures
        normalized_all(list) == list.map_values(|syllable: Seq<char>| normalized(syllable)),
{
    assert(normalized_all(list) =~= list.map_values(|syllable: Seq<char>| normalized(syllable)));
}

// Entries

/// An entry with as many syllables as its word has characters is encoded by these syllables and
/// by nothing else, however many they are: its characters do not matter.
pub proof fn law_typed_pinyin_decides(entry: WordText, other: WordText, list: Seq<Seq<char>>)
    requires
        entry.pinyin == Some(list),
        list.len() == entry.word.len(),
        other.pinyin == Some(list),
        list.len() == other.word.len(),
    ensures
        match word_code(list, list.map_values(|syllable: Seq<char>| normalized(syllable))) {
            Ok(code) => {
                &&& encoded_entry(entry) == Ok::<EncodedText, Seq<char>>(
                    EncodedText { word: entry.word, code, frequency: entry.frequency },
                )
                &&& encoded_entry(other) == Ok::<EncodedText, Seq<char>>(
                    EncodedText { word: other.word, code, frequency: other.frequency },
                )
            },
            Err(message) => {
                &&& encoded_entry(entry) == Err::<EncodedText, Seq<char>>(message)
                &&& encoded_entry(other) == Err::<EncodedText, Seq<char>>(message)
            },
        },
{
    law_normal_forms_keep_places(list);
}

/// Syllables that are not as many as the characters of the word are refused, with both numbers.
pub proof fn law_typed_pinyin_must_fit(entry: WordText, list: Seq<Seq<char>>)
    requires
        entry.pinyin == Some(list),
        list.len() != entry.word.len(),
    ensures
        encoded_entry(entry) == Err::<EncodedText, Seq<char>>(
            "词语“"@ + entry.word + "”有 "@ + decimal(entry.word.len()) + " 个字，但人工拼音有 "@
                + decimal(list.len()) + " 个音节"@,
        ),
{
}

/// An entry without pinyin is encoded as if the pinyin of each of its characters had been typed.
pub proof fn law_pinyin_of_characters_decides(entry: WordText)
    requires
        entry.pinyin is None,
        forall|i: int| 0 <= i < entry.word.len() ==> plain_pinyin(#[trigger] entry.word[i]) is Some,
    ensures
        encoded_entry(entry) == encoded_entry(
            (WordText {
                word: entry.word,
                frequency: entry.frequency,
                pinyin: Some(
                    entry.word.map_values(|c: char| normalized(plain_pinyin(c)->0)),
                ),
            }),
        ),
{
    let word = entry.word;
    let list = word.map_values(|c: char| normalized(plain_pinyin(c)->0));
    law_pronunciation_by_characters(word, readings_of(word));
    let found = pronunciation(word, readings_of(word));
    assert forall|i: int| 0 <= i < word.len() implies (#[trigger] readings_of(word)[i]) is Some by {
        assert(plain_pinyin(word[i]) is Some);
    }
    assert(found is Ok);
    assert(found->Ok_0 =~= list) by {
        assert forall|i: int| 0 <= i < word.len() implies found->Ok_0[i] == list[i] by {
            assert(readings_of(word)[i] is Some);
        }
    }
}

/// An entry without pinyin that holds a character without pinyin is refused, and the first such
/// character is named.
pub proof fn law_character_without_pinyin_is_named(entry: WordText, i: int)
    requires
        entry.pinyin is None,
        0 <= i < entry.word.len(),
        plain_pinyin(entry.word[i]) is None,
        forall|j: int| 0 <= j < i ==> plain_pinyin(#[trigger] entry.word[j]) is Some,
    ensures
        encoded_entry(entry) == Err::<EncodedText, Seq<char>>(
            "词语“"@ + entry.word + "”中的字符“"@ + seq![entry.word[i]] + "”无法转换为拼音"@,
        ),
{
    let word = entry.word;
    law_pronunciation_by_characters(word, readings_of(word));
    assert(readings_of(word)[i] is None);
    assert forall|j: int| 0 <= j < i implies (#[trigger] readings_of(word)[j]) is Some by {
        assert(plain_pinyin(word[j]) is Some);
    }
}

/// A word is spoken as its characters are, one syllable for each and in their order; the first
/// character without a reading is named otherwise.
pub proof fn law_pronunciation_by_characters(word: Seq<char>, readings: Seq<Option<Seq<char>>>)
    requires
        readings.len() == word.len(),
    ensures
        match pronunciation(word, readings) {
            Ok(syllables) => syllables.len() == word.len() && forall|i: int|
                0 <= i < word.len() ==> (#[trigger] readings[i]) is Some && syllables[i]
                    == normalized(readings[i]->0),
            Err(message) => exists|i: int|
                0 <= i < word.len() && (#[trigger] readings[i]) is None && message == "词语“"@
                    + word + "”中的字符“"@ + seq![word[i]] + "”无法转换为拼音"@ && forall|j: int|
                    0 <= j < i ==> (#[trigger] readings[j]) is Some,
        },
{
    let results = Seq::new(word.len(), |i: int| spoken(word, word[i], readings[i]));
    law_results_are_collected(results);
    match collected(results) {
        Ok(syllables) => {
            assert forall|i: int| 0 <= i < word.len() implies (#[trigger] readings[i]) is Some
                && syllables[i] == normalized(readings[i]->0) by {
                assert(results[i] == Ok::<Seq<char>, Seq<char>>(syllables[i]));
            }
        },
        Err(message) => {
            let i = choose|i: int|
                0 <= i < results.len() && #[trigger] results[i] == Err::<Seq<char>, Seq<char>>(
                    message,
                ) && forall|j: int| 0 <= j < i ==> (#[trigger] results[j]) is Ok;
            assert(readings[i] is None);
            assert forall|j: int| 0 <= j < i implies (#[trigger] readings[j]) is Some by {
                assert(results[j] is Ok);
            }
        },
    }
}

/// The characters of a word are looked up one by one.
pub proof fn law_readings_are_those_of_the_characters(word: Seq<char>)
    ensures
        readings_of(word) == word.map_values(|c: char| plain_pinyin(c)),
{
    assert(readings_of(word) =~= word.map_values(|c: char| plain_pinyin(c)));
}

/// A word list is encoded if each of its entries is, each at its place; otherwise the first entry
/// that cannot be encoded says why.
pub proof fn law_list_is_encoded_entry_by_entry(entries: Seq<WordText>)
    ensures
        match encoded_entries(entries) {
            Ok(list) => list.len() == entries.len() && forall|i: int|
                0 <= i < entries.len() ==> encoded_entry(#[trigger] entries[i]) == Ok::<
                    EncodedText,
                    Seq<char>,
                >(list[i]) && list[i].word == entries[i].word && list[i].frequency
                    == entries[i].frequency,
            Err(message) => exists|i: int|
                0 <= i < entries.len() && encoded_entry(#[trigger] entries[i]) == Err::<
                    EncodedText,
                    Seq<char>,
                >(message) && forall|j: int|
                    0 <= j < i ==> encoded_entry(#[trigger] entries[j]) is Ok,
        },
{
    let results = Seq::new(entries.len(), |i: int| encoded_entry(entries[i]));
    law_results_are_collected(results);
    match collected(results) {
        Ok(list) => {
            assert forall|i: int| 0 <= i < entries.len() implies encoded_entry(#[trigger] entries[i])
                == Ok::<EncodedText, Seq<char>>(list[i]) by {
                assert(results[i] == Ok::<EncodedText, Seq<char>>(list[i]));
            }
        },
        Err(message) => {
            let i = choose|i: int|
                0 <= i < results.len() && #[trigger] results[i] == Err::<EncodedText, Seq<char>>(
                    message,
                ) && forall|j: int| 0 <= j < i ==> (#[trigger] results[j]) is Ok;
            assert(encoded_entry(entries[i]) == Err::<EncodedText, Seq<char>>(message));
            assert forall|j: int| 0 <= j < i implies encoded_entry(#[trigger] entries[j]) is Ok by {
                assert(results[j] is Ok);
            }
        },
    }
}

// The dictionary

/// A dictionary has one line for each entry: the word, a tab and the code. The two settings stand
/// before them where they are asked for.
pub proof fn law_dictionary_is_written_line_by_line(
    a: Seq<EncodedText>,
    b: Seq<EncodedText>,
    entry: EncodedText,
)
    ensures
        dictionary_text(Seq::empty(), false) == Seq::<char>::empty(),
        dictionary_text(seq![entry], false) == entry.word + seq!['\t'] + entry.code + seq!['\n'],
        dictionary_text(a + b, false) == dictionary_text(a, false) + dictionary_text(b, false),
        dictionary_text(a, true) == "---config@码表分类=主码-用户码表\n"@
            + "---config@码表别名=用户\n"@ + dictionary_text(a, false),
{
    let none = Seq::<EncodedText>::empty();
    assert(seq![entry].drop_last() =~= none);
    assert(dictionary_lines(none) =~= Seq::empty());
    assert(dictionary_lines(seq![entry]) =~= entry.word + seq!['\t'] + entry.code + seq!['\n']);
    lemma_lines_of_both(a, b);
}

proof fn lemma_lines_of_both(a: Seq<EncodedText>, b: Seq<EncodedText>)
    ensures
        dictionary_lines(a + b) == dictionary_lines(a) + dictionary_lines(b),
    decreases b.len(),
{
    if b.len() == 0 {
        assert(a + b =~= a);
        assert(dictionary_lines(a) + dictionary_lines(b) =~= dictionary_lines(a));
    } else {
        assert((a + b).drop_last() =~= a + b.drop_last());
        assert((a + b).last() == b.last());
        lemma_lines_of_both(a, b.drop_last());
        assert(dictionary_lines(a + b) =~= dictionary_lines(a) + dictionary_lines(b));
    }
}

} // verus!
