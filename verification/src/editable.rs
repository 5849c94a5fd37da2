//! Rows of a word list while it is revised by hand.

use crate::encode::{encode_entry, encoded_entry};
use crate::entry::{EncodedEntry, EncodedText, WordEntry, WordText};
use crate::syllable::plain_forms_known;
use crate::text::{
    decimal, decimal_text, filled, from_chars, join, joined, number_value, optional_text,
    parse_number, pieces, same_text, split_filled, to_chars, trim, trim_text, trimmed, views,
    CharClass,
};
use vstd::prelude::*;

verus! {

/// A row of the table in which a word list is revised. The fields hold what was typed.
#[derive(Debug, PartialEq, Eq)]
pub struct EditableWord {
    /// Stays with the row wherever it moves.
    pub id: u64,
    pub word: String,
    pub frequency: String,
    pub pinyin: String,
    /// The code of the word, empty if there is an error.
    pub code: String,
    pub error: Option<String>,
    /// What `cached` was made of.
    pub cache_key: String,
    /// The entry as it was last encoded.
    pub cached: Option<Result<EncodedEntry, String>>,
}

/// What an `EditableWord` says.
#[verifier::ext_equal]
pub struct RowText {
    pub id: u64,
    pub word: Seq<char>,
    pub frequency: Seq<char>,
    pub pinyin: Seq<char>,
    pub code: Seq<char>,
    pub error: Option<Seq<char>>,
    pub cache_key: Seq<char>,
    pub cached: Option<Result<EncodedText, Seq<char>>>,
}

/// An encoded entry or a message, as what it says.
pub open spec fn encoding_text(encoding: Result<EncodedEntry, String>) -> Result<
    EncodedText,
    Seq<char>,
> {
    match encoding {
        Ok(entry) => Ok(entry@),
        Err(message) => Err(message@),
    }
}

/// What is cached, as what it says.
pub open spec fn cached_text(cached: Option<Result<EncodedEntry, String>>) -> Option<
    Result<EncodedText, Seq<char>>,
> {
    match cached {
        Some(encoding) => Some(encoding_text(encoding)),
        None => None,
    }
}

impl View for EditableWord {
    type V = RowText;

    open spec fn view(&self) -> RowText {
        RowText {
            id: self.id,
            word: self.word@,
            frequency: self.frequency@,
            pinyin: self.pinyin@,
            code: self.code@,
            error: optional_text(self.error),
            cache_key: self.cache_key@,
            cached: cached_text(self.cached),
        }
    }
}

/// A copy of an encoding.
fn copy_encoding(encoding: &Result<EncodedEntry, String>) -> (copy: Result<EncodedEntry, String>)
    ensures
        encoding_text(copy) == encoding_text(*encoding),
{
    match encoding {
        Ok(entry) => Ok(entry.clone()),
        Err(message) => Err(message.clone()),
    }
}

impl Clone for EditableWord {
    fn clone(&self) -> (copy: Self)
        ensures
            copy@ == self@,
    {
        let error: Option<String> = match &self.error {
            Some(message) => Some(message.clone()),
            None => None,
        };
        let cached: Option<Result<EncodedEntry, String>> = match &self.cached {
            Some(encoding) => Some(copy_encoding(encoding)),
            None => None,
        };
        EditableWord {
            id: self.id,
            word: self.word.clone(),
            frequency: self.frequency.clone(),
            pinyin: self.pinyin.clone(),
            code: self.code.clone(),
            error,
            cache_key: self.cache_key.clone(),
            cached,
        }
    }
}

/// A row with the given fields that has not been encoded.
pub open spec fn fresh_row(
    id: u64,
    word: Seq<char>,
    frequency: Seq<char>,
    pinyin: Seq<char>,
) -> RowText {
    RowText {
        id,
        word,
        frequency,
        pinyin,
        code: Seq::empty(),
        error: None,
        cache_key: Seq::empty(),
        cached: None,
    }
}

impl Default for EditableWord {
    fn default() -> (row: Self)
        ensures
            row@ == fresh_row(0, Seq::empty(), Seq::empty(), Seq::empty()),
    {
        EditableWord {
            id: 0,
            word: String::new(),
            frequency: String::new(),
            pinyin: String::new(),
            code: String::new(),
            error: None,
            cache_key: String::new(),
            cached: None,
        }
    }
}

/// The row in which an entry of a word list is revised.
pub open spec fn row_of_entry(id: u64, entry: WordText) -> RowText {
    fresh_row(
        id,
        entry.word,
        match entry.frequency {
            Some(number) => decimal(number as nat),
            None => Seq::empty(),
        },
        match entry.pinyin {
            Some(syllables) => joined(syllables, " "@),
            None => Seq::empty(),
        },
    )
}

/// The fields by which rows are told apart: those that the encoding is made of.
pub open spec fn key_text(word: Seq<char>, frequency: Seq<char>, pinyin: Seq<char>) -> Seq<char> {
    word + seq!['\u{1}'] + frequency + seq!['\u{1}'] + pinyin
}

/// Whether what is cached was made of the fields as they are.
pub open spec fn is_cached(row: RowText) -> bool {
    row.cached is Some && row.cache_key == key_text(row.word, row.frequency, row.pinyin)
}

/// A row after its encoding has been looked at: what is cached stays, unless there is nothing or
/// it was made of other fields.
pub open spec fn refreshed(row: RowText) -> RowText {
    if is_cached(row) {
        row
    } else {
        RowText {
            cache_key: key_text(row.word, row.frequency, row.pinyin),
            cached: Some(row_encoding(row)),
            ..row
        }
    }
}

impl EditableWord {
    /// An empty row.
    pub fn new(id: u64) -> (row: Self)
        ensures
            row@ == fresh_row(id, Seq::empty(), Seq::empty(), Seq::empty()),
    {
        let mut row: EditableWord = EditableWord::default();
        row.id = id;
        row
    }

    /// The row in which `entry` is revised.
    pub fn from_word_entry(id: u64, entry: WordEntry) -> (row: Self)
        ensures
            row@ == row_of_entry(id, entry@),
    {
        let mut row: EditableWord = EditableWord::new(id);
        row.word = entry.word;
        if let Some(number) = entry.frequency {
            row.frequency = decimal_text(number);
        }
        if let Some(syllables) = entry.pinyin {
            row.pinyin = join(&syllables, " ");
        }
        row
    }

    /// What the encoding of the row is made of.
    pub fn cache_key(&self) -> (key: String)
        ensures
            key@ == key_text(self.word@, self.frequency@, self.pinyin@),
    {
        let mut key: String = self.word.clone();
        key.push('\u{1}');
        key.append(self.frequency.as_str());
        key.push('\u{1}');
        key.append(self.pinyin.as_str());
        assert(key@ =~= key_text(self.word@, self.frequency@, self.pinyin@));
        key
    }

    /// Encodes the row, unless that was done for the same fields before.
    pub fn refresh_encoding(&mut self)
        ensures
            final(self)@ == refreshed(old(self)@),
            !is_cached(old(self)@) ==> row_forms_known(old(self)@),
    {
        let key: String = self.cache_key();
        if self.cached.is_some() && same_text(self.cache_key.as_str(), key.as_str()) {
            return;
        }
        let encoding: Result<EncodedEntry, String> = match editable_to_entry(self) {
            Ok(entry) => match encode_entry(&entry) {
                Ok(encoded) => Ok(encoded),
                Err(error) => Err(error.message()),
            },
            Err(message) => Err(message),
        };
        self.cached = Some(encoding);
        self.cache_key = key;
    }
}

/// Whether what is cached, if it is looked at, is the encoding of the row.
pub open spec fn is_cache_true(row: RowText) -> bool {
    is_cached(row) ==> row.cached == Some(row_encoding(row))
}

/// A row that has been looked at shows its encoding, and will go on to, if what was cached was
/// right. A row that has not been encoded yet has nothing wrong cached.
pub proof fn law_refreshed_row_is_encoded(row: RowText)
    ensures
        row.cached is None ==> is_cache_true(row),
        is_cache_true(row) ==> refreshed(row).cached == Some(row_encoding(row)),
        is_cache_true(row) ==> is_cache_true(refreshed(row)),
        refreshed(refreshed(row)) == refreshed(row),
{
}

/// The fields of a row can be told from its key, unless the separator is typed into the word or
/// the frequency.
pub proof fn law_key_tells_fields_apart(a: RowText, b: RowText)
    requires
        !a.word.contains('\u{1}'),
        !b.word.contains('\u{1}'),
        !a.frequency.contains('\u{1}'),
        !b.frequency.contains('\u{1}'),
        key_text(a.word, a.frequency, a.pinyin) == key_text(b.word, b.frequency, b.pinyin),
    ensures
        a.word == b.word,
        a.frequency == b.frequency,
        a.pinyin == b.pinyin,
{
    let mark = seq!['\u{1}'];
    let key = key_text(a.word, a.frequency, a.pinyin);
    let rest_a = a.frequency + mark + a.pinyin;
    let rest_b = b.frequency + mark + b.pinyin;
    assert(key =~= a.word + mark + rest_a);
    assert(key =~= b.word + mark + rest_b);
    lemma_first_part(a.word, rest_a, b.word, rest_b);
    lemma_first_part(a.frequency, a.pinyin, b.frequency, b.pinyin);
}

proof fn lemma_first_part(a: Seq<char>, rest_a: Seq<char>, b: Seq<char>, rest_b: Seq<char>)
    requires
        !a.contains('\u{1}'),
        !b.contains('\u{1}'),
        a + seq!['\u{1}'] + rest_a == b + seq!['\u{1}'] + rest_b,
    ensures
        a == b,
        rest_a == rest_b,
{
    let whole = a + seq!['\u{1}'] + rest_a;
    let other = b + seq!['\u{1}'] + rest_b;
    assert(whole[a.len() as int] == '\u{1}');
    assert(other[b.len() as int] == '\u{1}');
    if a.len() < b.len() {
        assert(b[a.len() as int] == other[a.len() as int]);
        assert(b.contains(b[a.len() as int]));
    }
    if b.len() < a.len() {
        assert(a[b.len() as int] == whole[b.len() as int]);
        assert(a.contains(a[b.len() as int]));
    }
    assert(a =~= whole.take(a.len() as int));
    assert(b =~= other.take(b.len() as int));
    assert(rest_a =~= whole.skip(a.len() as int + 1));
    assert(rest_b =~= other.skip(b.len() as int + 1));
}

/// A row that is changed after it was encoded is encoded anew.
pub proof fn law_edited_row_is_encoded_anew(before: RowText, after: RowText)
    requires
        is_cached(before),
        after.cache_key == before.cache_key,
        after.cached == before.cached,
        after.word != before.word || after.frequency != before.frequency || after.pinyin
            != before.pinyin,
        !before.word.contains('\u{1}'),
        !after.word.contains('\u{1}'),
        !before.frequency.contains('\u{1}'),
        !after.frequency.contains('\u{1}'),
    ensures
        refreshed(after).cached == Some(row_encoding(after)),
        is_cache_true(after),
{
    if is_cached(after) {
        law_key_tells_fields_apart(before, after);
    }
}

// What a row means

/// What a row says of its frequency: `None` if it is no number.
pub open spec fn typed_frequency(typed: Seq<char>) -> Option<Option<u64>> {
    if trimmed(typed).len() == 0 {
        Some(None)
    } else {
        match number_value(trimmed(typed)) {
            Some(number) => Some(Some(number)),
            None => None,
        }
    }
}

/// The syllables in what was typed.
pub open spec fn typed_syllables(typed: Seq<char>) -> Option<Seq<Seq<char>>> {
    let syllables = filled(pieces(typed, CharClass::SyllableSeparator));
    if syllables.len() == 0 {
        None
    } else {
        Some(syllables)
    }
}

/// The entry that a row stands for, or what is wrong with it.
pub open spec fn row_entry(row: RowText) -> Result<WordText, Seq<char>> {
    if trimmed(row.word).len() == 0 {
        Err("词语不能为空"@)
    } else {
        match typed_frequency(row.frequency) {
            None => Err("词频必须是非负整数"@),
            Some(frequency) => Ok(
                WordText {
                    word: trimmed(row.word),
                    frequency,
                    pinyin: typed_syllables(row.pinyin),
                },
            ),
        }
    }
}

/// The encoding of a row, or what is wrong with it.
pub open spec fn row_encoding(row: RowText) -> Result<EncodedText, Seq<char>> {
    match row_entry(row) {
        Ok(entry) => encoded_entry(entry),
        Err(message) => Err(message),
    }
}

/// That what plain letters give is known of the syllables by which a row is encoded.
pub open spec fn row_forms_known(row: RowText) -> bool {
    match row_entry(row) {
        Ok(entry) => match entry.pinyin {
            Some(list) => list.len() == entry.word.len() ==> plain_forms_known(list),
            None => true,
        },
        Err(_) => true,
    }
}

/// A result whose value is an entry, with both sides as what they say.
pub open spec fn word_result(result: Result<WordEntry, String>) -> Result<WordText, Seq<char>> {
    match result {
        Ok(entry) => Ok(entry@),
        Err(message) => Err(message@),
    }
}

/// The entry that a row stands for.
pub fn editable_to_entry(row: &EditableWord) -> (entry: Result<WordEntry, String>)
    ensures
        word_result(entry) == row_entry(row@),
{
    let word_chars: Vec<char> = to_chars(row.word.as_str());
    let word: &[char] = trim(&word_chars);
    if word.len() == 0 {
        return Err("词语不能为空".to_owned());
    }
    let typed: Vec<char> = to_chars(row.frequency.as_str());
    let digits: &[char] = trim(&typed);
    let frequency: Option<u64> = if digits.len() == 0 {
        None
    } else {
        match parse_number(digits) {
            Some(number) => Some(number),
            None => {
                return Err("词频必须是非负整数".to_owned());
            },
        }
    };
    let pinyin_chars: Vec<char> = to_chars(row.pinyin.as_str());
    let parts: Vec<Vec<char>> = split_filled(&pinyin_chars, CharClass::SyllableSeparator);
    let mut syllables: Vec<String> = Vec::new();
    for i in 0..parts.len()
        invariant
            syllables@.len() == i,
            forall|j: int| 0 <= j < i ==> (#[trigger] syllables@[j])@ == parts@[j]@,
    {
        syllables.push(from_chars(&parts[i]));
    }
    assert(views(syllables@) =~= views(parts@));
    let pinyin: Option<Vec<String>> = if syllables.len() == 0 {
        None
    } else {
        Some(syllables)
    };
    Ok(WordEntry { word: from_chars(word), frequency, pinyin })
}

// The rows as a text

/// The line of a row: its word, its frequency and, if there is one, its pinyin.
pub open spec fn row_line(row: RowText) -> Seq<char> {
    let start = trimmed(row.word) + seq!['\t'] + trimmed(row.frequency);
    if trimmed(row.pinyin).len() == 0 {
        start
    } else {
        start + seq!['\t'] + trimmed(row.pinyin)
    }
}

/// The lines of the rows that have a word.
pub open spec fn row_lines(rows: Seq<RowText>) -> Seq<char>
    decreases rows.len(),
{
    if rows.len() == 0 {
        Seq::empty()
    } else if trimmed(rows.last().word).len() == 0 {
        row_lines(rows.drop_last())
    } else {
        row_lines(rows.drop_last()) + row_line(rows.last()) + seq!['\n']
    }
}

/// The rows as a word list, with the line that explains its columns.
pub open spec fn rows_text(rows: Seq<RowText>) -> Seq<char> {
    "# 词语\t词频\t拼音（可选）\n"@ + row_lines(rows)
}

/// Writes the rows as a word list.
pub fn render_editable_words(words: &[EditableWord]) -> (output: String)
    ensures
        output@ == rows_text(views(words@)),
{
    let mut output: String = "# 词语\t词频\t拼音（可选）\n".to_owned();
    let ghost head = output@;
    let ghost all = views(words@);
    assert(all.take(0) =~= Seq::empty());
    assert(output@ =~= head + row_lines(all.take(0)));
    for i in 0..words.len()
        invariant
            all == views(words@),
            output@ == head + row_lines(all.take(i as int)),
    {
        let ghost row = words@[i as int]@;
        let ghost before = output@;
        assert(all.take(i + 1).drop_last() =~= all.take(i as int));
        assert(all.take(i + 1).last() == row);
        let word: String = trim_text(words[i].word.as_str());
        let frequency: String = trim_text(words[i].frequency.as_str());
        let pinyin: String = trim_text(words[i].pinyin.as_str());
        if word.as_str().unicode_len() > 0 {
            output.append(word.as_str());
            output.push('\t');
            output.append(frequency.as_str());
            if pinyin.as_str().unicode_len() > 0 {
                output.push('\t');
                output.append(pinyin.as_str());
            }
            assert(output@ =~= before + row_line(row));
            output.push('\n');
            assert(output@ =~= head + row_lines(all.take(i + 1)));
        }
    }
    assert(all.take(words.len() as int) =~= all);
    output
}

} // verus!
