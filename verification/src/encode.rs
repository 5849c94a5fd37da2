//! The codes of words and the dictionary made of them.

use crate::entry::{EncodedEntry, EncodedText, WordEntry, WordText};
use crate::error::{collected, lemma_collected_stops, text_result, FlypeError};
use crate::foreign::{char_pinyin, plain_pinyin};
use crate::syllable::{
    encode_normalized, first_key, first_letter_normalized, is_key,
    law_first_key_starts_the_full_code, law_full_code_is_two_keys, normalize_all,
    normalize_syllable, normalized, normalized_all, plain_forms_known, syllable_code,
};
use crate::text::{decimal, optional_text, push_decimal, to_chars, views};
use vstd::prelude::*;

verus! {

// The code of a word

/// Two parts of a code after each other; of two errors the first counts.
pub open spec fn chained(
    a: Result<Seq<char>, Seq<char>>,
    b: Result<Seq<char>, Seq<char>>,
) -> Result<Seq<char>, Seq<char>> {
    match a {
        Err(message) => Err(message),
        Ok(head) => match b {
            Err(message) => Err(message),
            Ok(tail) => Ok(head + tail),
        },
    }
}

/// The first key of a syllable as a part of a code.
pub open spec fn key_code(raw: Seq<char>, syllable: Seq<char>) -> Result<Seq<char>, Seq<char>> {
    match first_key(raw, syllable) {
        Ok(key) => Ok(seq![key]),
        Err(message) => Err(message),
    }
}

/// The code of a word by the number of its syllables: the full code of one; the full codes of
/// two; of three the first keys of the first two and the full code of the third; of more the
/// first keys of the first three and of the last.
pub open spec fn word_code(raw: Seq<Seq<char>>, syllables: Seq<Seq<char>>) -> Result<
    Seq<char>,
    Seq<char>,
> {
    let n = syllables.len();
    if n == 0 {
        Err("不能编码空词语"@)
    } else if n == 1 {
        syllable_code(raw[0], syllables[0])
    } else if n == 2 {
        chained(syllable_code(raw[0], syllables[0]), syllable_code(raw[1], syllables[1]))
    } else if n == 3 {
        chained(
            chained(key_code(raw[0], syllables[0]), key_code(raw[1], syllables[1])),
            syllable_code(raw[2], syllables[2]),
        )
    } else {
        chained(
            chained(
                chained(key_code(raw[0], syllables[0]), key_code(raw[1], syllables[1])),
                key_code(raw[2], syllables[2]),
            ),
            key_code(raw[n - 1], syllables[n - 1]),
        )
    }
}

fn add_code(code: String, raw: &str, syllable: &str) -> (longer: Result<String, FlypeError>)
    ensures
        text_result(longer) == chained(Ok(code@), syllable_code(raw@, syllable@)),
{
    match encode_normalized(raw, syllable) {
        Ok(part) => {
            let mut longer: String = code;
            longer.append(part.as_str());
            Ok(longer)
        },
        Err(error) => Err(error),
    }
}

fn add_key(code: String, raw: &str, syllable: &str) -> (longer: Result<String, FlypeError>)
    ensures
        text_result(longer) == chained(Ok(code@), key_code(raw@, syllable@)),
{
    match first_letter_normalized(raw, syllable) {
        Ok(key) => {
            let mut longer: String = code;
            longer.push(key);
            assert(longer@ =~= code@ + seq![key]);
            Ok(longer)
        },
        Err(error) => Err(error),
    }
}

/// Encodes a word whose syllables are in normal form; `raw` is what errors show.
pub fn encode_normalized_word(raw: &[String], syllables: &[String]) -> (code: Result<
    String,
    FlypeError,
>)
    requires
        raw.len() == syllables.len(),
    ensures
        text_result(code) == word_code(views(raw@), views(syllables@)),
{
    let n: usize = syllables.len();
    let empty: String = String::new();
    assert(forall|s: Seq<char>| #[trigger] (empty@ + s) =~= s);
    if n == 0 {
        return Err(FlypeError::new("不能编码空词语".to_owned()));
    }
    if n == 1 {
        return encode_normalized(raw[0].as_str(), syllables[0].as_str());
    }
    if n == 2 {
        return match encode_normalized(raw[0].as_str(), syllables[0].as_str()) {
            Ok(code) => add_code(code, raw[1].as_str(), syllables[1].as_str()),
            Err(error) => Err(error),
        };
    }
    let one: String = match add_key(empty, raw[0].as_str(), syllables[0].as_str()) {
        Ok(code) => code,
        Err(error) => {
            return Err(error);
        },
    };
    let two: String = match add_key(one, raw[1].as_str(), syllables[1].as_str()) {
        Ok(code) => code,
        Err(error) => {
            return Err(error);
        },
    };
    if n == 3 {
        return add_code(two, raw[2].as_str(), syllables[2].as_str());
    }
    match add_key(two, raw[2].as_str(), syllables[2].as_str()) {
        Ok(code) => add_key(code, raw[n - 1].as_str(), syllables[n - 1].as_str()),
        Err(error) => Err(error),
    }
}

/// The code of a word, given its syllables.
pub fn encode_word_from_pinyin(syllables: &[String]) -> (code: Result<String, FlypeError>)
    ensures
        text_result(code) == word_code(views(syllables@), normalized_all(views(syllables@))),
        plain_forms_known(views(syllables@)),
{
    let normal: Vec<String> = normalize_all(syllables);
    encode_normalized_word(syllables, &normal)
}

/// Every code of a word is made of keys of the keyboard: two for one syllable, four for more.
pub proof fn law_word_code_length(raw: Seq<Seq<char>>, syllables: Seq<Seq<char>>)
    requires
        word_code(raw, syllables) is Ok,
    ensures
        word_code(raw, syllables)->Ok_0.len() == (if syllables.len() == 1 {
            2int
        } else {
            4
        }),
        forall|i: int|
            0 <= i < word_code(raw, syllables)->Ok_0.len() ==> is_key(
                #[trigger] word_code(raw, syllables)->Ok_0[i],
            ),
{
    let n = syllables.len() as int;
    assert forall|i: int|
        0 <= i < n && syllable_code(raw[i], syllables[i]) is Ok implies syllable_code(
        raw[i],
        syllables[i],
    )->Ok_0.len() == 2 && is_key(#[trigger] syllable_code(raw[i], syllables[i])->Ok_0[0]) && is_key(
        syllable_code(raw[i], syllables[i])->Ok_0[1],
    ) by {
        law_full_code_is_two_keys(raw[i], syllables[i]);
    }
}

/// The code of a longer word is the initial keys of its syllables' full codes: the first three
/// and the last of four or more syllables that can all be encoded.
pub proof fn law_long_word_takes_first_keys(raw: Seq<Seq<char>>, syllables: Seq<Seq<char>>)
    requires
        syllables.len() >= 4,
        raw.len() == syllables.len(),
        forall|i: int| 0 <= i < syllables.len() ==> syllable_code(raw[i], #[trigger] syllables[i])
            is Ok,
    ensures
        word_code(raw, syllables) == Ok::<Seq<char>, Seq<char>>(
            seq![
                syllable_code(raw[0], syllables[0])->Ok_0[0],
                syllable_code(raw[1], syllables[1])->Ok_0[0],
                syllable_code(raw[2], syllables[2])->Ok_0[0],
                syllable_code(raw.last(), syllables.last())->Ok_0[0],
            ],
        ),
{
    let last = syllables.len() - 1;
    law_first_key_starts_the_full_code(raw[0], syllables[0]);
    law_first_key_starts_the_full_code(raw[1], syllables[1]);
    law_first_key_starts_the_full_code(raw[2], syllables[2]);
    law_first_key_starts_the_full_code(raw[last], syllables[last]);
    assert(word_code(raw, syllables)->Ok_0 =~= seq![
        syllable_code(raw[0], syllables[0])->Ok_0[0],
        syllable_code(raw[1], syllables[1])->Ok_0[0],
        syllable_code(raw[2], syllables[2])->Ok_0[0],
        syllable_code(raw[last], syllables[last])->Ok_0[0],
    ]);
}

// The pronunciation of a word

/// What is said of a character that no pinyin is known for.
pub open spec fn no_pinyin_message(word: Seq<char>, c: char) -> Seq<char> {
    "词语“"@ + word + "”中的字符“"@ + seq![c] + "”无法转换为拼音"@
}

/// The syllable of the character `c` of `word`, given the pinyin found for it.
pub open spec fn spoken(word: Seq<char>, c: char, reading: Option<Seq<char>>) -> Result<
    Seq<char>,
    Seq<char>,
> {
    match reading {
        Some(pinyin) => Ok(normalized(pinyin)),
        None => Err(no_pinyin_message(word, c)),
    }
}

/// The syllables of `word`, given the pinyin found for each of its characters.
pub open spec fn pronunciation(word: Seq<char>, readings: Seq<Option<Seq<char>>>) -> Result<
    Seq<Seq<char>>,
    Seq<char>,
> {
    collected(Seq::new(word.len(), |i: int| spoken(word, word[i], readings[i])))
}

/// The pinyin of each character of `word`.
pub open spec fn readings_of(word: Seq<char>) -> Seq<Option<Seq<char>>> {
    Seq::new(word.len(), |i: int| plain_pinyin(word[i]))
}

/// A list of readings as texts.
pub open spec fn reading_texts(readings: Seq<Option<String>>) -> Seq<Option<Seq<char>>> {
    Seq::new(readings.len(), |i: int| optional_text(readings[i]))
}

/// A result whose value is a list of texts, with both sides as texts.
pub open spec fn texts_result(result: Result<Vec<String>, FlypeError>) -> Result<
    Seq<Seq<char>>,
    Seq<char>,
> {
    match result {
        Ok(list) => Ok(views(list@)),
        Err(error) => Err(error@),
    }
}

/// Looks up the pinyin of each character.
pub fn look_up(word: &str) -> (readings: Vec<Option<String>>)
    ensures
        reading_texts(readings@) == readings_of(word@),
{
    let chars: Vec<char> = to_chars(word);
    let mut readings: Vec<Option<String>> = Vec::new();
    for i in 0..chars.len()
        invariant
            chars@ == word@,
            readings@.len() == i,
            forall|j: int|
                0 <= j < i ==> optional_text(#[trigger] readings@[j]) == plain_pinyin(word@[j]),
    {
        readings.push(char_pinyin(chars[i]));
    }
    assert(reading_texts(readings@) =~= readings_of(word@));
    readings
}

/// The syllables of a word, given the pinyin found for each of its characters.
pub fn pronounce(word: &str, readings: &[Option<String>]) -> (syllables: Result<
    Vec<String>,
    FlypeError,
>)
    requires
        readings.len() == word@.len(),
    ensures
        texts_result(syllables) == pronunciation(word@, reading_texts(readings@)),
{
    let chars: Vec<char> = to_chars(word);
    let mut syllables: Vec<String> = Vec::new();
    let ghost found = reading_texts(readings@);
    let ghost results = Seq::new(word@.len(), |i: int| spoken(word@, word@[i], found[i]));
    assert(results.take(0) =~= Seq::empty());
    assert(views(syllables@) =~= Seq::empty());
    for i in 0..chars.len()
        invariant
            chars@ == word@,
            readings.len() == word@.len(),
            found == reading_texts(readings@),
            results == Seq::new(word@.len(), |i: int| spoken(word@, word@[i], found[i])),
            collected(results.take(i as int)) == Ok::<Seq<Seq<char>>, Seq<char>>(views(syllables@)),
    {
        proof {
            assert(results.take(i + 1).drop_last() =~= results.take(i as int));
            assert(found[i as int] == optional_text(readings@[i as int]));
        }
        match &readings[i] {
            Some(pinyin) => {
                let ghost before = views(syllables@);
                let syllable: String = normalize_syllable(pinyin.as_str());
                syllables.push(syllable);
                assert(views(syllables@) =~= before.push(normalized(pinyin@)));
            },
            None => {
                let mut message: String = String::new();
                message.append("词语“");
                message.append(word);
                message.append("”中的字符“");
                message.push(chars[i]);
                message.append("”无法转换为拼音");
                assert(message@ =~= no_pinyin_message(word@, word@[i as int]));
                proof {
                    lemma_collected_stops(results, i + 1);
                }
                return Err(FlypeError::new(message));
            },
        }
    }
    assert(results.take(chars.len() as int) =~= results);
    Ok(syllables)
}

/// The syllables of a word, one for each character.
pub fn word_pinyin(word: &str) -> (syllables: Result<Vec<String>, FlypeError>)
    ensures
        texts_result(syllables) == pronunciation(word@, readings_of(word@)),
{
    let readings: Vec<Option<String>> = look_up(word);
    assert(readings_of(word@).len() == word@.len());
    pronounce(word, &readings)
}

// Entries

/// What is said of a word whose syllables are not as many as its characters.
pub open spec fn count_message(word: Seq<char>, syllables: nat) -> Seq<char> {
    "词语“"@ + word + "”有 "@ + decimal(word.len()) + " 个字，但人工拼音有 "@ + decimal(syllables)
        + " 个音节"@
}

/// The syllables by which an entry is encoded: its own, if they are as many as its characters, or
/// else those of its characters.
pub open spec fn syllables_of(entry: WordText) -> Result<Seq<Seq<char>>, Seq<char>> {
    match entry.pinyin {
        Some(list) => if list.len() != entry.word.len() {
            Err(count_message(entry.word, list.len()))
        } else {
            Ok(list)
        },
        None => pronunciation(entry.word, readings_of(entry.word)),
    }
}

/// An entry with its code.
pub open spec fn encoded_entry(entry: WordText) -> Result<EncodedText, Seq<char>> {
    match syllables_of(entry) {
        Err(message) => Err(message),
        Ok(syllables) => match word_code(syllables, normalized_all(syllables)) {
            Err(message) => Err(message),
            Ok(code) => Ok(EncodedText { word: entry.word, code, frequency: entry.frequency }),
        },
    }
}

/// The entries with their codes, or the first error.
pub open spec fn encoded_entries(entries: Seq<WordText>) -> Result<Seq<EncodedText>, Seq<char>> {
    collected(Seq::new(entries.len(), |i: int| encoded_entry(entries[i])))
}

/// A result whose value is an encoded entry, with both sides as what they say.
pub open spec fn entry_result(result: Result<EncodedEntry, FlypeError>) -> Result<
    EncodedText,
    Seq<char>,
> {
    match result {
        Ok(entry) => Ok(entry@),
        Err(error) => Err(error@),
    }
}

/// A result whose value is a list of encoded entries, with both sides as what they say.
pub open spec fn entries_result(result: Result<Vec<EncodedEntry>, FlypeError>) -> Result<
    Seq<EncodedText>,
    Seq<char>,
> {
    match result {
        Ok(list) => Ok(views(list@)),
        Err(error) => Err(error@),
    }
}

/// Encodes one entry.
pub fn encode_entry(entry: &WordEntry) -> (encoded: Result<EncodedEntry, FlypeError>)
    ensures
        entry_result(encoded) == encoded_entry(entry@),
        match (entry@.pinyin, encoded) {
            (Some(list), Ok(encoded)) => list.len() == entry.word@.len() && encoded.word@
                == entry.word@ && encoded.frequency == entry.frequency && word_code(
                list,
                normalized_all(list),
            ) == Ok::<Seq<char>, Seq<char>>(encoded.code@),
            (Some(list), Err(error)) => list.len() == entry.word@.len() ==> word_code(
                list,
                normalized_all(list),
            ) == Err::<Seq<char>, Seq<char>>(error@),
            (None, Ok(encoded)) => encoded.word@ == entry.word@ && encoded.frequency
                == entry.frequency,
            (None, Err(_)) => true,
        },
        match entry@.pinyin {
            Some(list) => list.len() == entry.word@.len() ==> plain_forms_known(list),
            None => true,
        },
{
    let code: Result<String, FlypeError> = match &entry.pinyin {
        Some(syllables) => {
            let chars: Vec<char> = to_chars(entry.word.as_str());
            if syllables.len() != chars.len() {
                let mut message: String = String::new();
                message.append("词语“");
                message.append(entry.word.as_str());
                message.append("”有 ");
                push_decimal(&mut message, chars.len() as u64);
                message.append(" 个字，但人工拼音有 ");
                push_decimal(&mut message, syllables.len() as u64);
                message.append(" 个音节");
                assert(message@ =~= count_message(entry.word@, syllables.len() as nat));
                return Err(FlypeError::new(message));
            }
            encode_word_from_pinyin(syllables)
        },
        None => match word_pinyin(entry.word.as_str()) {
            Ok(syllables) => encode_word_from_pinyin(&syllables),
            Err(error) => Err(error),
        },
    };
    match code {
        Ok(code) => Ok(
            EncodedEntry { word: entry.word.clone(), code, frequency: entry.frequency },
        ),
        Err(error) => Err(error),
    }
}

/// Encodes a word list, up to the first entry that cannot be encoded.
pub fn encode_entries(entries: &[WordEntry]) -> (encoded: Result<Vec<EncodedEntry>, FlypeError>)
    ensures
        entries_result(encoded) == encoded_entries(views(entries@)),
        forall|i: int|
            #![trigger entries@[i]]
            0 <= i < entries.len() && (forall|j: int|
                0 <= j < i ==> encoded_entry((#[trigger] entries@[j])@) is Ok) ==> match entries@[i]@.pinyin {
                Some(list) => list.len() == entries@[i].word@.len() ==> plain_forms_known(list),
                None => true,
            },
{
    let mut encoded: Vec<EncodedEntry> = Vec::new();
    let ghost all = views(entries@);
    let ghost results = Seq::new(all.len(), |i: int| encoded_entry(all[i]));
    assert(results.take(0) =~= Seq::empty());
    assert(views(encoded@) =~= Seq::empty());
    for i in 0..entries.len()
        invariant
            all == views(entries@),
            results == Seq::new(all.len(), |i: int| encoded_entry(all[i])),
            collected(results.take(i as int)) == Ok::<Seq<EncodedText>, Seq<char>>(
                views(encoded@),
            ),
            forall|j: int|
                #![trigger entries@[j]]
                0 <= j < i ==> match entries@[j]@.pinyin {
                    Some(list) => list.len() == entries@[j].word@.len() ==> plain_forms_known(list),
                    None => true,
                },
    {
        proof {
            assert(results.take(i + 1).drop_last() =~= results.take(i as int));
            assert(results.take(i + 1).last() == encoded_entry(entries@[i as int]@));
        }
        match encode_entry(&entries[i]) {
            Ok(entry) => {
                let ghost before = views(encoded@);
                let ghost text = entry@;
                encoded.push(entry);
                assert(views(encoded@) =~= before.push(text));
            },
            Err(error) => {
                proof {
                    lemma_collected_stops(results, i + 1);
                    assert(encoded_entry(entries@[i as int]@) is Err);
                }
                return Err(error);
            },
        }
    }
    assert(results.take(entries.len() as int) =~= results);
    Ok(encoded)
}

// The dictionary as a text

/// The lines of a dictionary: word, tab, code.
pub open spec fn dictionary_lines(entries: Seq<EncodedText>) -> Seq<char>
    decreases entries.len(),
{
    if entries.len() == 0 {
        Seq::empty()
    } else {
        dictionary_lines(entries.drop_last()) + entries.last().word + seq!['\t']
            + entries.last().code + seq!['\n']
    }
}

/// A dictionary, with or without the lines that tell the input method what it is.
pub open spec fn dictionary_text(entries: Seq<EncodedText>, with_flypy_header: bool) -> Seq<char> {
    if with_flypy_header {
        "---config@码表分类=主码-用户码表\n"@ + "---config@码表别名=用户\n"@ + dictionary_lines(entries)
    } else {
        dictionary_lines(entries)
    }
}

/// Writes the dictionary.
pub fn render_encoded(entries: &[EncodedEntry], with_flypy_header: bool) -> (output: String)
    ensures
        output@ == dictionary_text(views(entries@), with_flypy_header),
{
    let mut output: String = String::new();
    if with_flypy_header {
        output.append("---config@码表分类=主码-用户码表\n");
        output.append("---config@码表别名=用户\n");
    }
    let ghost head = output@;
    let ghost all = views(entries@);
    assert(all.take(0) =~= Seq::empty());
    assert(output@ =~= head + dictionary_lines(all.take(0)));
    for i in 0..entries.len()
        invariant
            all == views(entries@),
            output@ == head + dictionary_lines(all.take(i as int)),
    {
        assert(all.take(i + 1).drop_last() =~= all.take(i as int));
        output.append(entries[i].word.as_str());
        output.push('\t');
        output.append(entries[i].code.as_str());
        output.push('\n');
        assert(output@ =~= head + dictionary_lines(all.take(i + 1)));
    }
    assert(all.take(entries.len() as int) =~= all);
    assert(output@ =~= dictionary_text(all, with_flypy_header));
    output
}

} // verus!
