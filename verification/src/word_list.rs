//! Word lists as people write them.

use crate::entry::{WordEntry, WordText};
use crate::error::FlypeError;
use crate::syllable::{normalize_all, normalized_all, plain_forms_known};
use crate::text::{
    contains_char, decimal, filled, from_chars, number_value, parse_number, pieces, push_decimal,
    split, split_filled, starts_with_text, to_chars, trim, trim_start, trimmed, trimmed_start,
    views, CharClass,
};
use vstd::hash_set::StringHashSet;
use vstd::prelude::*;

verus! {

// One line

/// What counts of a line: the white space around it and then byte order marks at its start go.
pub open spec fn line_core(raw_line: Seq<char>) -> Seq<char> {
    trimmed_start(trimmed(raw_line), CharClass::ByteOrderMark)
}

/// Whether a line is blank, a comment or a setting of the input method.
pub open spec fn is_skipped(line: Seq<char>) -> bool {
    line.len() == 0 || line[0] == '#' || "---config@"@.is_prefix_of(line)
}

/// The texts of a list without the white space around them.
pub open spec fn trimmed_all(list: Seq<Seq<char>>) -> Seq<Seq<char>> {
    Seq::new(list.len(), |i: int| trimmed(list[i]))
}

/// The fields of a line: between tabs, or without tabs between white space.
pub open spec fn fields_of(line: Seq<char>) -> Seq<Seq<char>> {
    if line.contains('\t') {
        trimmed_all(pieces(line, CharClass::Tab))
    } else {
        filled(pieces(line, CharClass::WhiteSpace))
    }
}

/// The syllables in a list of fields.
pub open spec fn syllables_in(fields: Seq<Seq<char>>) -> Seq<Seq<char>>
    decreases fields.len(),
{
    if fields.len() == 0 {
        Seq::empty()
    } else {
        syllables_in(fields.drop_last()) + filled(
            pieces(fields.last(), CharClass::SyllableSeparator),
        )
    }
}

/// Whether the second field is the frequency.
pub open spec fn has_frequency(fields: Seq<Seq<char>>) -> bool {
    fields.len() > 1 && number_value(fields[1]) is Some
}

/// The entry of a line's fields, with the syllables as they are written.
pub open spec fn fields_entry(fields: Seq<Seq<char>>) -> Option<WordText> {
    if fields.len() == 0 || fields[0].len() == 0 {
        None
    } else {
        let syllables = syllables_in(
            fields.skip(
                if has_frequency(fields) {
                    2
                } else {
                    1
                },
            ),
        );
        Some(
            WordText {
                word: fields[0],
                frequency: if has_frequency(fields) {
                    number_value(fields[1])
                } else {
                    None
                },
                pinyin: if syllables.len() == 0 {
                    None
                } else {
                    Some(syllables)
                },
            },
        )
    }
}

/// The entry of a line, if it has one, with the syllables as they are written.
pub open spec fn line_entry(raw_line: Seq<char>) -> Option<WordText> {
    let line = line_core(raw_line);
    if is_skipped(line) {
        None
    } else {
        fields_entry(fields_of(line))
    }
}

/// An entry with its syllables in normal form.
pub open spec fn normal_entry(entry: WordText) -> WordText {
    WordText {
        word: entry.word,
        frequency: entry.frequency,
        pinyin: match entry.pinyin {
            Some(list) => Some(normalized_all(list)),
            None => None,
        },
    }
}

fn split_fields(line: &[char]) -> (fields: Vec<Vec<char>>)
    ensures
        views(fields@) == fields_of(line@),
{
    if !contains_char(line, '\t') {
        return split_filled(line, CharClass::WhiteSpace);
    }
    let parts: Vec<Vec<char>> = split(line, CharClass::Tab);
    let mut fields: Vec<Vec<char>> = Vec::new();
    for i in 0..parts.len()
        invariant
            fields@.len() == i,
            forall|j: int| 0 <= j < i ==> (#[trigger] fields@[j])@ == trimmed(parts@[j]@),
    {
        fields.push(vstd::slice::slice_to_vec(trim(&parts[i])));
    }
    assert(views(fields@) =~= trimmed_all(views(parts@)));
    fields
}

fn collect_syllables(fields: &[Vec<char>], start: usize) -> (syllables: Vec<String>)
    requires
        start <= fields.len(),
    ensures
        views(syllables@) == syllables_in(views(fields@).skip(start as int)),
{
    let mut syllables: Vec<String> = Vec::new();
    let ghost rest = views(fields@).skip(start as int);
    assert(rest.take(0) =~= Seq::empty());
    assert(views(syllables@) =~= Seq::empty());
    for i in start..fields.len()
        invariant
            start <= fields.len(),
            rest == views(fields@).skip(start as int),
            views(syllables@) == syllables_in(rest.take(i - start)),
    {
        proof {
            assert(rest.take(i + 1 - start).drop_last() =~= rest.take(i - start));
            assert(rest.take(i + 1 - start).last() == fields@[i as int]@);
        }
        let parts: Vec<Vec<char>> = split_filled(&fields[i], CharClass::SyllableSeparator);
        let ghost before = views(syllables@);
        let ghost all = views(parts@);
        assert(before + all.take(0) =~= before);
        for k in 0..parts.len()
            invariant
                all == views(parts@),
                views(syllables@) == before + all.take(k as int),
        {
            let ghost earlier = views(syllables@);
            let syllable: String = from_chars(&parts[k]);
            syllables.push(syllable);
            assert(views(syllables@) =~= earlier.push(parts@[k as int]@));
            assert(views(syllables@) =~= before + all.take(k + 1));
        }
        assert(all.take(parts.len() as int) =~= all);
    }
    assert(rest.take(fields.len() - start) =~= rest);
    syllables
}

/// Reads one line of a word list.
pub fn parse_line(raw_line: &[char]) -> (entry: Option<WordEntry>)
    ensures
        match entry {
            Some(entry) => line_entry(raw_line@) is Some && entry@ == normal_entry(
                line_entry(raw_line@)->0,
            ),
            None => line_entry(raw_line@) is None,
        },
        match line_entry(raw_line@) {
            Some(raw) => match raw.pinyin {
                Some(list) => plain_forms_known(list),
                None => true,
            },
            None => true,
        },
{
    let line: &[char] = trim_start(trim(raw_line), CharClass::ByteOrderMark);
    if line.len() == 0 || line[0] == '#' || starts_with_text(line, "---config@") {
        return None;
    }
    let fields: Vec<Vec<char>> = split_fields(line);
    let ghost texts = views(fields@);
    if fields.len() == 0 || fields[0].len() == 0 {
        assert(texts.len() == 0 || texts[0].len() == 0);
        return None;
    }
    assert(texts[0] == fields@[0]@);
    let mut frequency: Option<u64> = None;
    let mut start: usize = 1;
    if fields.len() > 1 {
        assert(texts[1] == fields@[1]@);
        if let Some(number) = parse_number(&fields[1]) {
            frequency = Some(number);
            start = 2;
        }
    }
    let raw: Vec<String> = collect_syllables(&fields, start);
    assert(views(raw@).len() == raw@.len());
    let pinyin: Option<Vec<String>> = if raw.len() == 0 {
        None
    } else {
        Some(normalize_all(&raw))
    };
    Some(WordEntry { word: from_chars(&fields[0]), frequency, pinyin })
}

// The whole list

/// The entries of a list of lines, each with the number of its line.
pub open spec fn numbered(lines: Seq<Seq<char>>) -> Seq<(nat, WordText)>
    decreases lines.len(),
{
    if lines.len() == 0 {
        Seq::empty()
    } else {
        match line_entry(lines.last()) {
            Some(entry) => numbered(lines.drop_last()).push((lines.len(), entry)),
            None => numbered(lines.drop_last()),
        }
    }
}

/// The entries of a word list, each with the number of its line and with the syllables as they
/// are written. A carriage return before a line feed is white space at the end of the line.
pub open spec fn numbered_entries(input: Seq<char>) -> Seq<(nat, WordText)> {
    numbered(pieces(input, CharClass::LineFeed))
}

/// The entries without the numbers of their lines, with the syllables in normal form.
pub open spec fn normal_entries(entries: Seq<(nat, WordText)>) -> Seq<WordText> {
    Seq::new(entries.len(), |i: int| normal_entry(entries[i].1))
}

/// The entries of a word list.
pub open spec fn word_entries(input: Seq<char>) -> Seq<WordText> {
    normal_entries(numbered_entries(input))
}

/// That what plain letters give is known of the syllables of all entries.
pub open spec fn plain_lists_known(entries: Seq<(nat, WordText)>) -> bool {
    forall|i: int|
        0 <= i < entries.len() ==> match (#[trigger] entries[i]).1.pinyin {
            Some(list) => plain_forms_known(list),
            None => true,
        }
}

/// That a list of read entries is what `entries` say, the numbers of the lines among it.
pub open spec fn reads(list: Seq<(usize, WordEntry)>, entries: Seq<(nat, WordText)>) -> bool {
    &&& list.len() == entries.len()
    &&& forall|i: int|
        0 <= i < list.len() ==> (#[trigger] list[i]).0 == entries[i].0 && list[i].1@
            == normal_entry(entries[i].1)
}

/// Reads the lines of a word list, without looking at more than one at a time.
pub fn parse_word_lines(input: &str) -> (entries: Vec<(usize, WordEntry)>)
    ensures
        reads(entries@, numbered_entries(input@)),
        plain_lists_known(numbered_entries(input@)),
{
    let chars: Vec<char> = to_chars(input);
    let lines: Vec<Vec<char>> = split(&chars, CharClass::LineFeed);
    let mut entries: Vec<(usize, WordEntry)> = Vec::new();
    let ghost all = views(lines@);
    assert(all.take(0) =~= Seq::empty());
    for i in 0..lines.len()
        invariant
            all == views(lines@),
            reads(entries@, numbered(all.take(i as int))),
            plain_lists_known(numbered(all.take(i as int))),
    {
        let ghost before = numbered(all.take(i as int));
        proof {
            assert(all.take(i + 1).drop_last() =~= all.take(i as int));
            assert(all.take(i + 1).last() == lines@[i as int]@);
        }
        if let Some(entry) = parse_line(&lines[i]) {
            entries.push((i + 1, entry));
        }
    }
    assert(all.take(lines.len() as int) =~= all);
    entries
}

/// Reads a word list and keeps words that occur more than once.
pub fn parse_word_list_lenient(input: &str) -> (entries: Vec<WordEntry>)
    ensures
        views(entries@) == word_entries(input@),
        plain_lists_known(numbered_entries(input@)),
{
    let lines: Vec<(usize, WordEntry)> = parse_word_lines(input);
    let ghost read = lines@;
    let mut entries: Vec<WordEntry> = Vec::new();
    for line in it: lines
        invariant
            it.seq() == read,
            entries@.len() == it.index(),
            forall|j: int| 0 <= j < it.index() ==> #[trigger] entries@[j] == read[j].1,
    {
        entries.push(line.1);
    }
    assert(views(entries@) =~= word_entries(input@));
    entries
}

/// Whether the word of the entry `i` occurs before it.
pub open spec fn is_repeated(entries: Seq<(nat, WordText)>, i: int) -> bool {
    exists|j: int| 0 <= j < i && (#[trigger] entries[j]).1.word == entries[i].1.word
}

/// Whether the entry `i` is the first whose word occurs before it.
pub open spec fn is_first_repeated(entries: Seq<(nat, WordText)>, i: int) -> bool {
    &&& 0 <= i < entries.len()
    &&& is_repeated(entries, i)
    &&& forall|k: int| 0 <= k < i ==> !#[trigger] is_repeated(entries, k)
}

/// Whether no word occurs twice.
pub open spec fn words_differ(entries: Seq<(nat, WordText)>) -> bool {
    forall|i: int, j: int|
        0 <= j < i < entries.len() ==> (#[trigger] entries[j]).1.word != (
        #[trigger] entries[i]).1.word
}

/// What is said of a word that occurs before.
pub open spec fn repeated_message(line: nat, word: Seq<char>) -> Seq<char> {
    "第 "@ + decimal(line) + " 行出现重复词语“"@ + word + "”"@
}

/// Reads a word list in which no word occurs more than once.
pub fn parse_word_list(input: &str) -> (entries: Result<Vec<WordEntry>, FlypeError>)
    ensures
        match entries {
            Ok(list) => words_differ(numbered_entries(input@)) && views(list@) == word_entries(
                input@,
            ),
            Err(error) => exists|i: int|
                #[trigger] is_first_repeated(numbered_entries(input@), i) && error@
                    == repeated_message(
                    numbered_entries(input@)[i].0,
                    numbered_entries(input@)[i].1.word,
                ),
        },
        plain_lists_known(numbered_entries(input@)),
{
    let lines: Vec<(usize, WordEntry)> = parse_word_lines(input);
    let ghost read = lines@;
    let ghost all = numbered_entries(input@);
    let mut seen: StringHashSet = StringHashSet::new();
    let mut entries: Vec<WordEntry> = Vec::new();
    for line in it: lines
        invariant
            it.seq() == read,
            all == numbered_entries(input@),
            reads(read, all),
            plain_lists_known(all),
            entries@.len() == it.index(),
            forall|j: int| 0 <= j < it.index() ==> #[trigger] entries@[j] == read[j].1,
            forall|word: Seq<char>|
                #[trigger] seen@.contains(word) <==> exists|j: int|
                    0 <= j < it.index() && (#[trigger] all[j]).1.word == word,
            forall|k: int| 0 <= k < it.index() ==> !#[trigger] is_repeated(all, k),
    {
        let ghost i = it.index();
        assert(read[i] == line && read[i].1@ == normal_entry(all[i].1));
        let (number, entry) = line;
        if !seen.insert(entry.word.clone()) {
            let mut message: String = String::new();
            message.append("第 ");
            push_decimal(&mut message, number as u64);
            message.append(" 行出现重复词语“");
            message.append(entry.word.as_str());
            message.append("”");
            assert(message@ =~= repeated_message(all[i].0, all[i].1.word));
            assert(is_first_repeated(all, i));
            return Err(FlypeError::new(message));
        }
        entries.push(entry);
        assert(!is_repeated(all, i));
    }
    assert(views(entries@) =~= word_entries(input@));
    assert(words_differ(all)) by {
        assert forall|i: int, j: int| 0 <= j < i < all.len() implies (#[trigger] all[j]).1.word != (
        #[trigger] all[i]).1.word by {
            assert(!is_repeated(all, i));
        }
    }
    Ok(entries)
}

} // verus!
