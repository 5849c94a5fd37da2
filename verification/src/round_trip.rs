//! What is written as a word list is read back.

use crate::decode::{chosen_text, file_bytes, law_saved_text_reads_back};
use crate::editable::{
    row_entry, row_line, row_of_entry, row_lines, rows_text, typed_syllables, RowText,
};
use crate::entry::{FrequencyText, WordText};
use crate::frequency::{frequency_lines, frequency_text, in_pinyin_table};
use crate::text::{
    decimal, filled, is_digit, is_white_space, joined, law_decimal_reads_back,
    lemma_pieces_not_empty, lemma_trimmed_end_is_part, number_value, pieces, trimmed, trimmed_end,
    trimmed_start, without_plus, CharClass,
};
use crate::word_list::{
    fields_entry, fields_of, is_skipped, line_core, line_entry, normal_entry, numbered,
    numbered_entries, syllables_in, trimmed_all, word_entries, words_differ,
};
use vstd::prelude::*;

verus! {

// Pieces of texts put together

/// A text that holds no character of a class.
pub open spec fn is_free_of(s: Seq<char>, class: CharClass) -> bool {
    forall|i: int| 0 <= i < s.len() ==> !class.has(#[trigger] s[i])
}

pub(crate) proof fn lemma_pieces_of_free(s: Seq<char>, class: CharClass)
    requires
        is_free_of(s, class),
    ensures
        pieces(s, class) == seq![s],
    decreases s.len(),
{
    if s.len() > 0 {
        lemma_pieces_of_free(s.drop_last(), class);
        assert(!class.has(s[s.len() - 1]));
        assert(s.drop_last().push(s.last()) =~= s);
        assert(pieces(s, class) =~= seq![s]);
    } else {
        assert(s =~= Seq::empty());
    }
}

pub(crate) proof fn lemma_pieces_around(s: Seq<char>, c: char, t: Seq<char>, class: CharClass)
    requires
        class.has(c),
    ensures
        pieces(s + seq![c] + t, class) == pieces(s, class) + pieces(t, class),
    decreases t.len(),
{
    let whole = s + seq![c] + t;
    if t.len() == 0 {
        assert(whole.drop_last() =~= s);
        assert(whole.last() == c);
        assert(t =~= Seq::empty());
        assert(pieces(whole, class) =~= pieces(s, class) + pieces(t, class));
    } else {
        lemma_pieces_around(s, c, t.drop_last(), class);
        lemma_pieces_not_empty(t.drop_last(), class);
        assert(whole.drop_last() =~= s + seq![c] + t.drop_last());
        assert(whole.last() == t.last());
        assert(pieces(whole, class) =~= pieces(s, class) + pieces(t, class));
    }
}

pub(crate) proof fn lemma_filled_of_both(a: Seq<Seq<char>>, b: Seq<Seq<char>>)
    ensures
        filled(a + b) == filled(a) + filled(b),
    decreases b.len(),
{
    if b.len() == 0 {
        assert(a + b =~= a);
        assert(filled(a) + filled(b) =~= filled(a));
    } else {
        lemma_filled_of_both(a, b.drop_last());
        assert((a + b).drop_last() =~= a + b.drop_last());
        assert((a + b).last() == b.last());
        assert(filled(a + b) =~= filled(a) + filled(b));
    }
}

// Trimming

proof fn lemma_trimmed_start_begins(s: Seq<char>, class: CharClass)
    ensures
        trimmed_start(s, class).len() > 0 ==> !class.has(trimmed_start(s, class).first()),
    decreases s.len(),
{
    if s.len() > 0 && class.has(s.first()) {
        lemma_trimmed_start_begins(s.drop_first(), class);
    }
}

proof fn lemma_trimmed_end_ends(s: Seq<char>, class: CharClass)
    ensures
        trimmed_end(s, class).len() > 0 ==> !class.has(trimmed_end(s, class).last()),
    decreases s.len(),
{
    if s.len() > 0 && class.has(s.last()) {
        lemma_trimmed_end_ends(s.drop_last(), class);
    }
}

/// A trimmed text has no white space at its ends.
proof fn lemma_trimmed_ends(s: Seq<char>)
    ensures
        trimmed(s).len() > 0 ==> !is_white_space(trimmed(s).first()) && !is_white_space(
            trimmed(s).last(),
        ),
{
    let class = CharClass::WhiteSpace;
    let rest = trimmed_start(s, class);
    lemma_trimmed_start_begins(s, class);
    lemma_trimmed_end_ends(rest, class);
    lemma_trimmed_end_is_part(rest, class);
    let k = choose|k: int|
        0 <= k <= rest.len() && trimmed_end(rest, class) == #[trigger] rest.take(k);
    if k > 0 {
        assert(rest.take(k).first() == rest.first());
    }
}

/// A text without white space at its ends is trimmed.
pub(crate) proof fn lemma_is_trimmed(s: Seq<char>)
    requires
        s.len() == 0 || (!is_white_space(s.first()) && !is_white_space(s.last())),
    ensures
        trimmed(s) == s,
{
}

// Syllables

/// The syllables in a text.
pub open spec fn syllables_of_text(s: Seq<char>) -> Seq<Seq<char>> {
    filled(pieces(s, CharClass::SyllableSeparator))
}

proof fn lemma_syllables_without_first(s: Seq<char>)
    requires
        s.len() > 0,
        is_white_space(s.first()),
    ensures
        syllables_of_text(s) == syllables_of_text(s.drop_first()),
{
    let class = CharClass::SyllableSeparator;
    let none = Seq::<char>::empty();
    assert(s =~= none + seq![s.first()] + s.drop_first());
    lemma_pieces_around(none, s.first(), s.drop_first(), class);
    lemma_filled_of_both(pieces(none, class), pieces(s.drop_first(), class));
    assert(pieces(none, class).drop_last() =~= Seq::empty());
    assert(filled(Seq::<Seq<char>>::empty()) =~= Seq::empty());
    assert(filled(pieces(none, class)) =~= Seq::empty());
    assert(syllables_of_text(s) =~= syllables_of_text(s.drop_first()));
}

proof fn lemma_syllables_without_last(s: Seq<char>)
    requires
        s.len() > 0,
        is_white_space(s.last()),
    ensures
        syllables_of_text(s) == syllables_of_text(s.drop_last()),
{
    let before = pieces(s.drop_last(), CharClass::SyllableSeparator);
    assert(before.push(Seq::empty()).drop_last() =~= before);
}

proof fn lemma_syllables_of_start(s: Seq<char>)
    ensures
        syllables_of_text(trimmed_start(s, CharClass::WhiteSpace)) == syllables_of_text(s),
    decreases s.len(),
{
    if s.len() > 0 && is_white_space(s.first()) {
        lemma_syllables_without_first(s);
        lemma_syllables_of_start(s.drop_first());
    }
}

proof fn lemma_syllables_of_end(s: Seq<char>)
    ensures
        syllables_of_text(trimmed_end(s, CharClass::WhiteSpace)) == syllables_of_text(s),
    decreases s.len(),
{
    if s.len() > 0 && is_white_space(s.last()) {
        lemma_syllables_without_last(s);
        lemma_syllables_of_end(s.drop_last());
    }
}

proof fn lemma_syllables_of_trimmed(s: Seq<char>)
    ensures
        syllables_of_text(trimmed(s)) == syllables_of_text(s),
{
    lemma_syllables_of_start(s);
    lemma_syllables_of_end(trimmed_start(s, CharClass::WhiteSpace));
}

proof fn lemma_syllables_in_both(a: Seq<Seq<char>>, b: Seq<Seq<char>>)
    ensures
        syllables_in(a + b) == syllables_in(a) + syllables_in(b),
    decreases b.len(),
{
    if b.len() == 0 {
        assert(a + b =~= a);
        assert(syllables_in(a) + syllables_in(b) =~= syllables_in(a));
    } else {
        lemma_syllables_in_both(a, b.drop_last());
        assert((a + b).drop_last() =~= a + b.drop_last());
        assert((a + b).last() == b.last());
        assert(syllables_in(a + b) =~= syllables_in(a) + syllables_in(b));
    }
}

pub(crate) proof fn lemma_syllables_in_trimmed(list: Seq<Seq<char>>)
    ensures
        syllables_in(trimmed_all(list)) == syllables_in(list),
    decreases list.len(),
{
    if list.len() > 0 {
        lemma_syllables_in_trimmed(list.drop_last());
        lemma_syllables_of_trimmed(list.last());
        assert(trimmed_all(list).drop_last() =~= trimmed_all(list.drop_last()));
    } else {
        assert(trimmed_all(list) =~= list);
    }
}

pub(crate) proof fn lemma_filled_of_last(list: Seq<Seq<char>>)
    requires
        list.len() > 0,
    ensures
        filled(list) == filled(list.drop_last()) + filled(seq![list.last()]),
{
    assert(list =~= list.drop_last() + seq![list.last()]);
    lemma_filled_of_both(list.drop_last(), seq![list.last()]);
}

/// Splitting at tabs and then at separators is splitting at separators: all but the last pieces
/// are the same, and so is the last.
proof fn lemma_tabs_separate(s: Seq<char>)
    ensures
        pieces(s, CharClass::SyllableSeparator).last() == pieces(
            pieces(s, CharClass::Tab).last(),
            CharClass::SyllableSeparator,
        ).last(),
        filled(pieces(s, CharClass::SyllableSeparator).drop_last()) == syllables_in(
            pieces(s, CharClass::Tab).drop_last(),
        ) + filled(
            pieces(pieces(s, CharClass::Tab).last(), CharClass::SyllableSeparator).drop_last(),
        ),
    decreases s.len(),
{
    let fields = pieces(s, CharClass::Tab);
    let parts = pieces(s, CharClass::SyllableSeparator);
    let last_parts = pieces(fields.last(), CharClass::SyllableSeparator);
    if s.len() == 0 {
        assert(fields.drop_last() =~= Seq::empty());
        assert(parts.drop_last() =~= Seq::empty());
        assert(last_parts =~= parts);
        assert(filled(parts.drop_last()) =~= Seq::empty());
        assert(syllables_in(fields.drop_last()) =~= Seq::empty());
    } else {
        let c = s.last();
        let old_fields = pieces(s.drop_last(), CharClass::Tab);
        let old_parts = pieces(s.drop_last(), CharClass::SyllableSeparator);
        let old_last = pieces(old_fields.last(), CharClass::SyllableSeparator);
        lemma_tabs_separate(s.drop_last());
        lemma_pieces_not_empty(s.drop_last(), CharClass::Tab);
        lemma_pieces_not_empty(s.drop_last(), CharClass::SyllableSeparator);
        lemma_pieces_not_empty(old_fields.last(), CharClass::SyllableSeparator);
        lemma_filled_of_last(old_parts);
        lemma_filled_of_last(old_last);
        if CharClass::Tab.has(c) {
            assert(fields.drop_last() =~= old_fields);
            assert(parts.drop_last() =~= old_parts);
            assert(last_parts.drop_last() =~= Seq::empty());
            assert(filled(old_parts) =~= syllables_in(old_fields));
            assert(filled(last_parts.drop_last()) =~= Seq::empty());
            assert(filled(parts.drop_last()) =~= syllables_in(fields.drop_last()) + filled(
                last_parts.drop_last(),
            ));
        } else {
            let longer = old_fields.last().push(c);
            assert(longer.drop_last() =~= old_fields.last());
            assert(fields.last() == longer);
            assert(fields.drop_last() =~= old_fields.drop_last());
            if CharClass::SyllableSeparator.has(c) {
                assert(parts.drop_last() =~= old_parts);
                assert(last_parts.drop_last() =~= old_last);
                assert(filled(parts.drop_last()) =~= syllables_in(fields.drop_last()) + filled(
                    last_parts.drop_last(),
                ));
            } else {
                assert(parts.drop_last() =~= old_parts.drop_last());
                assert(last_parts.drop_last() =~= old_last.drop_last());
            }
        }
    }
}

proof fn lemma_syllables_between_tabs(s: Seq<char>)
    ensures
        syllables_in(trimmed_all(pieces(s, CharClass::Tab))) == syllables_of_text(s),
{
    let fields = pieces(s, CharClass::Tab);
    let parts = pieces(s, CharClass::SyllableSeparator);
    let last_parts = pieces(fields.last(), CharClass::SyllableSeparator);
    lemma_syllables_in_trimmed(fields);
    lemma_tabs_separate(s);
    lemma_pieces_not_empty(s, CharClass::Tab);
    lemma_pieces_not_empty(s, CharClass::SyllableSeparator);
    lemma_pieces_not_empty(fields.last(), CharClass::SyllableSeparator);
    lemma_filled_of_last(parts);
    lemma_filled_of_last(last_parts);
    assert(filled(parts) =~= syllables_in(fields));
}

// One row

/// Whether the line of a row is read back as the row: the row has no word and no line, or it
/// stands for an entry, its word cannot be taken for a comment, a setting, a byte order mark or
/// more than one field, and its pinyin is on one line.
pub open spec fn is_legible(row: RowText) -> bool {
    let word = trimmed(row.word);
    word.len() == 0 || {
        &&& row_entry(row) is Ok
        &&& !word.contains('\t')
        &&& !word.contains('\n')
        &&& word[0] != '\u{feff}'
        &&& !is_skipped(word)
        &&& !trimmed(row.pinyin).contains('\n')
        &&& trimmed(row.frequency).len() > 0 || trimmed(row.pinyin).len() > 0 || is_free_of(
            word,
            CharClass::WhiteSpace,
        )
    }
}

/// A number is written without white space.
pub(crate) proof fn lemma_number_is_solid(s: Seq<char>)
    requires
        number_value(s) is Some,
    ensures
        is_free_of(s, CharClass::WhiteSpace),
        s.len() > 0,
{
    let digits = without_plus(s);
    assert forall|i: int| 0 <= i < s.len() implies !CharClass::WhiteSpace.has(#[trigger] s[i]) by {
        if s[0] == '+' {
            if i > 0 {
                assert(digits[i - 1] == s[i]);
                assert(is_digit(digits[i - 1]));
            }
        } else {
            assert(is_digit(digits[i]));
        }
    }
}

proof fn lemma_skipped_by_word(word: Seq<char>, rest: Seq<char>)
    requires
        word.len() > 0,
        !word.contains('\t'),
        !is_skipped(word),
    ensures
        !is_skipped(word + seq!['\t'] + rest),
{
    let line = word + seq!['\t'] + rest;
    assert(line[0] == word[0]);
    reveal_strlit("---config@");
    let head = "---config@"@;
    if head.is_prefix_of(line) {
        if word.len() >= head.len() {
            assert(head =~= word.take(head.len() as int)) by {
                assert forall|i: int| 0 <= i < head.len() implies head[i] == word[i] by {
                    assert(head[i] == line[i]);
                }
            }
            assert(head.is_prefix_of(word));
        } else {
            let k = word.len() as int;
            assert(line[k] == '\t');
            assert(head[k] == line[k]);
        }
    }
}

/// A line whose word is followed by a tab and something else.
proof fn lemma_core_of_line(word: Seq<char>, rest: Seq<char>)
    requires
        word.len() > 0,
        rest.len() > 0,
        !is_white_space(word.first()),
        word[0] != '\u{feff}',
        !is_white_space(rest.last()),
    ensures
        line_core(word + seq!['\t'] + rest) == word + seq!['\t'] + rest,
{
    let line = word + seq!['\t'] + rest;
    assert(line.first() == word.first());
    assert(line.last() == rest.last());
    lemma_is_trimmed(line);
}

pub(crate) proof fn lemma_without_char(s: Seq<char>, c: char, class: CharClass)
    requires
        !s.contains(c),
        forall|d: char| #[trigger] class.has(d) ==> d == c,
    ensures
        is_free_of(s, class),
{
    assert forall|i: int| 0 <= i < s.len() implies !class.has(#[trigger] s[i]) by {
        assert(s.contains(s[i]));
    }
}

proof fn lemma_fields_of_line(word: Seq<char>, rest: Seq<char>)
    requires
        word.len() > 0,
        !word.contains('\t'),
        trimmed(word) == word,
    ensures
        fields_of(word + seq!['\t'] + rest) == seq![word] + trimmed_all(
            pieces(rest, CharClass::Tab),
        ),
{
    let line = word + seq!['\t'] + rest;
    assert(line[word.len() as int] == '\t');
    assert(line.contains('\t'));
    lemma_without_char(word, '\t', CharClass::Tab);
    lemma_pieces_around(word, '\t', rest, CharClass::Tab);
    lemma_pieces_of_free(word, CharClass::Tab);
    assert(trimmed_all(pieces(line, CharClass::Tab)) =~= seq![word] + trimmed_all(
        pieces(rest, CharClass::Tab),
    ));
}

/// What a line is read as that has a word, a number or nothing, and pinyin.
proof fn lemma_entry_with_pinyin(word: Seq<char>, number: Seq<char>, pinyin: Seq<char>)
    requires
        word.len() > 0,
        !word.contains('\t'),
        trimmed(word) == word,
        number.len() == 0 || number_value(number) is Some,
    ensures
        fields_entry(fields_of(word + seq!['\t'] + (number + seq!['\t'] + pinyin))) == Some(
            WordText {
                word,
                frequency: number_value(number),
                pinyin: typed_syllables(pinyin),
            },
        ),
{
    let rest = number + seq!['\t'] + pinyin;
    let last = trimmed_all(pieces(pinyin, CharClass::Tab));
    lemma_fields_of_line(word, rest);
    if number.len() > 0 {
        lemma_number_is_solid(number);
        assert(!CharClass::WhiteSpace.has(number[0]));
        assert(!CharClass::WhiteSpace.has(number[number.len() - 1]));
    } else {
        assert(number =~= Seq::empty());
        assert(without_plus(number) =~= number);
    }
    lemma_is_trimmed(number);
    assert forall|i: int| 0 <= i < number.len() implies !CharClass::Tab.has(#[trigger] number[i]) by {
        assert(!CharClass::WhiteSpace.has(number[i]));
    }
    lemma_pieces_around(number, '\t', pinyin, CharClass::Tab);
    lemma_pieces_of_free(number, CharClass::Tab);
    assert(trimmed_all(pieces(rest, CharClass::Tab)) =~= seq![number] + last);
    let fields = fields_of(word + seq!['\t'] + rest);
    assert(fields =~= seq![word, number] + last);
    assert(fields.skip(2) =~= last);
    lemma_syllables_between_tabs(pinyin);
    if number.len() == 0 {
        assert(fields.skip(1) =~= seq![number] + last);
        lemma_syllables_in_both(seq![number], last);
        assert(seq![number].drop_last() =~= Seq::empty());
        assert(syllables_in(Seq::<Seq<char>>::empty()) =~= Seq::empty());
        assert(pieces(number, CharClass::SyllableSeparator).drop_last() =~= Seq::empty());
        assert(filled(Seq::<Seq<char>>::empty()) =~= Seq::empty());
        assert(filled(pieces(number, CharClass::SyllableSeparator)) =~= Seq::empty());
        assert(syllables_in(seq![number]) =~= Seq::empty());
        assert(syllables_in(fields.skip(1)) =~= syllables_in(last));
    }
}

/// What a line is read as that has a word and a number.
proof fn lemma_entry_with_number(word: Seq<char>, number: Seq<char>)
    requires
        word.len() > 0,
        !word.contains('\t'),
        trimmed(word) == word,
        number_value(number) is Some,
    ensures
        fields_entry(fields_of(word + seq!['\t'] + number)) == Some(
            WordText { word, frequency: number_value(number), pinyin: None },
        ),
{
    lemma_fields_of_line(word, number);
    lemma_number_is_solid(number);
    assert(!CharClass::WhiteSpace.has(number[0]));
    assert(!CharClass::WhiteSpace.has(number[number.len() - 1]));
    lemma_is_trimmed(number);
    assert forall|i: int| 0 <= i < number.len() implies !CharClass::Tab.has(#[trigger] number[i]) by {
        assert(!CharClass::WhiteSpace.has(number[i]));
    }
    lemma_pieces_of_free(number, CharClass::Tab);
    let fields = fields_of(word + seq!['\t'] + number);
    assert(fields =~= seq![word, number]);
    assert(fields.skip(2) =~= Seq::empty());
    assert(syllables_in(fields.skip(2)) =~= Seq::empty());
}

/// What a line is read as that has a word alone.
pub(crate) proof fn lemma_entry_of_word(word: Seq<char>)
    requires
        word.len() > 0,
        !word.contains('\t'),
        is_free_of(word, CharClass::WhiteSpace),
    ensures
        fields_entry(fields_of(word)) == Some(WordText { word, frequency: None, pinyin: None }),
{
    lemma_pieces_of_free(word, CharClass::WhiteSpace);
    let fields = fields_of(word);
    assert(pieces(word, CharClass::WhiteSpace).drop_last() =~= Seq::empty());
    assert(filled(Seq::<Seq<char>>::empty()) =~= Seq::empty());
    assert(fields =~= seq![word]);
    assert(fields.skip(1) =~= Seq::empty());
    assert(syllables_in(fields.skip(1)) =~= Seq::empty());
}

proof fn lemma_typed_syllables(typed: Seq<char>)
    ensures
        typed_syllables(trimmed(typed)) == typed_syllables(typed),
        trimmed(typed).len() == 0 ==> typed_syllables(typed) is None,
{
    lemma_syllables_of_trimmed(typed);
    if trimmed(typed).len() == 0 {
        let none = trimmed(typed);
        assert(none =~= Seq::empty());
        assert(pieces(none, CharClass::SyllableSeparator).drop_last() =~= Seq::empty());
        assert(filled(Seq::<Seq<char>>::empty()) =~= Seq::empty());
        assert(filled(pieces(none, CharClass::SyllableSeparator)) =~= Seq::empty());
    }
}

/// The line of a row is read as the entry that the row stands for.
pub proof fn law_row_reads_back(row: RowText)
    requires
        is_legible(row),
        trimmed(row.word).len() > 0,
    ensures
        line_entry(row_line(row)) == Some(row_entry(row)->Ok_0),
        !row_line(row).contains('\n'),
{
    let word = trimmed(row.word);
    let number = trimmed(row.frequency);
    let pinyin = trimmed(row.pinyin);
    let line = row_line(row);
    lemma_trimmed_ends(row.word);
    lemma_trimmed_ends(row.frequency);
    lemma_trimmed_ends(row.pinyin);
    lemma_is_trimmed(word);
    lemma_typed_syllables(row.pinyin);
    if number.len() > 0 {
        lemma_number_is_solid(number);
    } else {
        assert(number =~= Seq::empty());
        assert(without_plus(number) =~= number);
    }
    if pinyin.len() > 0 {
        let rest = number + seq!['\t'] + pinyin;
        assert(line =~= word + seq!['\t'] + rest);
        assert(rest.last() == pinyin.last());
        lemma_core_of_line(word, rest);
        lemma_skipped_by_word(word, rest);
        lemma_entry_with_pinyin(word, number, pinyin);
    } else if number.len() > 0 {
        assert(line =~= word + seq!['\t'] + number);
        lemma_core_of_line(word, number);
        lemma_skipped_by_word(word, number);
        lemma_entry_with_number(word, number);
    } else {
        assert(line =~= word + seq!['\t']);
        assert(line.drop_last() =~= word);
        assert(line.first() == word.first());
        assert(trimmed(line) == word);
        assert(line_core(line) == word);
        lemma_entry_of_word(word);
    }
    assert forall|i: int| 0 <= i < line.len() implies line[i] != '\n' by {
        if i < word.len() {
            assert(word.contains(word[i]) && line[i] == word[i]);
        } else if word.len() < i < word.len() + 1 + number.len() {
            assert(!CharClass::WhiteSpace.has(number[i - word.len() - 1]));
        } else if i > word.len() + 1 + number.len() {
            let k = i - word.len() - number.len() - 2;
            assert(pinyin.contains(pinyin[k]) && line[i] == pinyin[k]);
        }
    }
}

// Entries as rows

/// Whether an entry can be put into a row and taken out again: its word has no white space around
/// it, and its syllables are not empty and hold no separators.
pub open spec fn fits_row(entry: WordText) -> bool {
    &&& entry.word.len() > 0
    &&& !is_white_space(entry.word.first())
    &&& !is_white_space(entry.word.last())
    &&& entry.pinyin matches Some(list) ==> list.len() > 0 && forall|i: int|
        0 <= i < list.len() ==> (#[trigger] list[i]).len() > 0 && is_free_of(
            list[i],
            CharClass::SyllableSeparator,
        )
}

proof fn lemma_joined_syllables(list: Seq<Seq<char>>)
    requires
        forall|i: int|
            0 <= i < list.len() ==> (#[trigger] list[i]).len() > 0 && is_free_of(
                list[i],
                CharClass::SyllableSeparator,
            ),
    ensures
        syllables_of_text(joined(list, " "@)) == list,
    decreases list.len(),
{
    let class = CharClass::SyllableSeparator;
    let none = Seq::<char>::empty();
    reveal_strlit(" ");
    assert(" "@ =~= seq![' ']);
    assert(filled(Seq::<Seq<char>>::empty()) =~= Seq::empty());
    if list.len() == 0 {
        assert(pieces(none, class).drop_last() =~= Seq::empty());
        assert(syllables_of_text(none) =~= list);
    } else {
        let last = list.last();
        let before = list.drop_last();
        assert(list[list.len() - 1].len() > 0);
        lemma_pieces_of_free(last, class);
        assert(seq![last].drop_last() =~= Seq::empty());
        assert(filled(seq![last]) =~= seq![last]);
        if list.len() == 1 {
            assert(list =~= seq![last]);
        } else {
            assert forall|i: int| 0 <= i < before.len() implies (#[trigger] before[i]).len() > 0
                && is_free_of(before[i], class) by {
                assert(before[i] == list[i]);
            }
            lemma_joined_syllables(before);
            let head = joined(before, " "@);
            assert(joined(list, " "@) =~= head + seq![' '] + last);
            lemma_pieces_around(head, ' ', last, class);
            lemma_filled_of_both(pieces(head, class), pieces(last, class));
            assert(syllables_of_text(joined(list, " "@)) =~= list);
        }
    }
}

/// The row of an entry stands for that entry.
pub proof fn law_row_of_entry_stands_for_it(id: u64, entry: WordText)
    requires
        fits_row(entry),
    ensures
        row_entry(row_of_entry(id, entry)) == Ok::<WordText, Seq<char>>(entry),
{
    let none = Seq::<char>::empty();
    let row = row_of_entry(id, entry);
    lemma_is_trimmed(entry.word);
    lemma_is_trimmed(none);
    if let Some(number) = entry.frequency {
        law_decimal_reads_back(number);
        lemma_number_is_solid(row.frequency);
        assert(!CharClass::WhiteSpace.has(row.frequency[0]));
        assert(!CharClass::WhiteSpace.has(row.frequency[row.frequency.len() - 1]));
        lemma_is_trimmed(row.frequency);
    }
    match entry.pinyin {
        Some(list) => {
            lemma_joined_syllables(list);
        },
        None => {
            lemma_typed_syllables(none);
        },
    }
}

// The whole list

/// Entries without the numbers of their lines.
pub open spec fn without_numbers(entries: Seq<(nat, WordText)>) -> Seq<WordText> {
    Seq::new(entries.len(), |i: int| entries[i].1)
}

/// The entries of the rows that have a word.
pub open spec fn row_entries(rows: Seq<RowText>) -> Seq<WordText>
    decreases rows.len(),
{
    if rows.len() == 0 {
        Seq::empty()
    } else if trimmed(rows.last().word).len() == 0 {
        row_entries(rows.drop_last())
    } else {
        row_entries(rows.drop_last()).push(row_entry(rows.last())->Ok_0)
    }
}

/// Whether a text ends at the end of a line, and holds the given entries.
spec fn holds(text: Seq<char>, entries: Seq<WordText>) -> bool {
    pieces(text, CharClass::LineFeed).last().len() == 0 && without_numbers(numbered_entries(text))
        == entries
}

proof fn lemma_pieces_extended(s: Seq<char>, t: Seq<char>, class: CharClass)
    requires
        is_free_of(t, class),
    ensures
        pieces(s + t, class) == pieces(s, class).drop_last().push(pieces(s, class).last() + t),
    decreases t.len(),
{
    let before = pieces(s, class);
    lemma_pieces_not_empty(s, class);
    if t.len() == 0 {
        assert(s + t =~= s);
        assert(before.last() + t =~= before.last());
        assert(before.drop_last().push(before.last()) =~= before);
    } else {
        lemma_pieces_extended(s, t.drop_last(), class);
        assert(!class.has(t[t.len() - 1]));
        assert((s + t).drop_last() =~= s + t.drop_last());
        assert((before.last() + t.drop_last()).push(t.last()) =~= before.last() + t);
        assert(pieces(s + t, class) =~= before.drop_last().push(before.last() + t));
    }
}

proof fn lemma_blank_line()
    ensures
        line_entry(Seq::<char>::empty()) is None,
{
    let none = Seq::<char>::empty();
    assert(trimmed(none) =~= none);
    assert(line_core(none) =~= none);
}

/// A line more at the end of a text.
proof fn lemma_line_added(text: Seq<char>, entries: Seq<WordText>, line: Seq<char>)
    requires
        holds(text, entries),
        !line.contains('\n'),
    ensures
        holds(
            text + line + seq!['\n'],
            match line_entry(line) {
                Some(entry) => entries.push(entry),
                None => entries,
            },
        ),
{
    let class = CharClass::LineFeed;
    let lines = pieces(text, class);
    let done = lines.drop_last();
    let none = Seq::<char>::empty();
    lemma_pieces_not_empty(text, class);
    lemma_without_char(line, '\n', class);
    lemma_pieces_extended(text, line, class);
    assert(lines.last() =~= none);
    assert(lines.last() + line =~= line);
    assert(pieces(text + line, class) == done.push(line));
    let longer = text + line + seq!['\n'];
    assert(longer.drop_last() =~= text + line);
    assert(pieces(longer, class) == done.push(line).push(none));
    lemma_blank_line();
    assert(done.push(line).push(none).drop_last() =~= done.push(line));
    assert(done.push(line).drop_last() =~= done);
    assert(numbered(lines) == numbered(done));
    assert(numbered_entries(longer) == numbered(done.push(line)));
    match line_entry(line) {
        Some(entry) => {
            assert(without_numbers(numbered_entries(longer)) =~= entries.push(entry));
        },
        None => {
            assert(without_numbers(numbered_entries(longer)) =~= entries);
        },
    }
}

proof fn lemma_rows_read_back(head: Seq<char>, rows: Seq<RowText>)
    requires
        holds(head, Seq::empty()),
        forall|i: int| 0 <= i < rows.len() ==> is_legible(#[trigger] rows[i]),
    ensures
        holds(head + row_lines(rows), row_entries(rows)),
    decreases rows.len(),
{
    if rows.len() == 0 {
        assert(head + row_lines(rows) =~= head);
    } else {
        let before = rows.drop_last();
        let row = rows.last();
        assert forall|i: int| 0 <= i < before.len() implies is_legible(#[trigger] before[i]) by {
            assert(before[i] == rows[i]);
        }
        lemma_rows_read_back(head, before);
        assert(is_legible(rows[rows.len() - 1]));
        if trimmed(row.word).len() > 0 {
            law_row_reads_back(row);
            lemma_line_added(head + row_lines(before), row_entries(before), row_line(row));
            assert(head + row_lines(rows) =~= head + row_lines(before) + row_line(row)
                + seq!['\n']);
        }
    }
}

/// A line that explains the columns.
proof fn lemma_head_holds_nothing(line: Seq<char>)
    requires
        line.len() > 0,
        line[0] == '#',
        !line.contains('\n'),
    ensures
        holds(line + seq!['\n'], Seq::empty()),
{
    let none = Seq::<char>::empty();
    lemma_blank_line();
    let first = pieces(none, CharClass::LineFeed);
    assert(first.drop_last() =~= Seq::empty());
    assert(numbered(Seq::<Seq<char>>::empty()) =~= Seq::empty());
    assert(numbered_entries(none) =~= Seq::empty());
    assert(without_numbers(numbered_entries(none)) =~= Seq::empty());
    lemma_line_added(none, Seq::empty(), line);
    assert(none + line + seq!['\n'] =~= line + seq!['\n']);
    lemma_comment_has_no_entry(line);
}

proof fn lemma_comment_has_no_entry(line: Seq<char>)
    requires
        line.len() > 0,
        line[0] == '#',
    ensures
        line_entry(line) is None,
{
    let rest = trimmed_start(line, CharClass::WhiteSpace);
    assert(rest == line);
    lemma_trimmed_end_is_part(line, CharClass::WhiteSpace);
    let k = choose|k: int|
        0 <= k <= line.len() && trimmed_end(line, CharClass::WhiteSpace) == #[trigger] line.take(k);
    if k > 0 {
        assert(line.take(k)[0] == '#');
    }
}

/// What the rows are saved as is read back as the entries that they stand for, in their order,
/// with the syllables in normal form. Rows without a word are left out.
pub proof fn law_saved_rows_read_back(rows: Seq<RowText>)
    requires
        forall|i: int| 0 <= i < rows.len() ==> is_legible(#[trigger] rows[i]),
    ensures
        without_numbers(numbered_entries(rows_text(rows))) == row_entries(rows),
        word_entries(rows_text(rows)) == Seq::new(
            row_entries(rows).len(),
            |i: int| normal_entry(row_entries(rows)[i]),
        ),
{
    let head = "# 词语\t词频\t拼音（可选）\n"@;
    reveal_strlit("# 词语\t词频\t拼音（可选）\n");
    let line = head.drop_last();
    assert(head =~= line + seq!['\n']);
    lemma_head_holds_nothing(line);
    lemma_rows_read_back(head, rows);
    let found = numbered_entries(rows_text(rows));
    assert forall|i: int| 0 <= i < found.len() implies (#[trigger] found[i]).1 == row_entries(
        rows,
    )[i] by {
        assert(without_numbers(found)[i] == found[i].1);
    }
    assert(word_entries(rows_text(rows)) =~= Seq::new(
        row_entries(rows).len(),
        |i: int| normal_entry(row_entries(rows)[i]),
    ));
}

/// The file that rows are saved as gives their entries back, whatever the decoders of other
/// encodings would make of its bytes.
pub proof fn law_saved_file_gives_rows_back(
    rows: Seq<RowText>,
    utf_16le: (Seq<char>, bool),
    utf_16be: (Seq<char>, bool),
    gb18030: Option<Seq<char>>,
    big5: Option<Seq<char>>,
)
    requires
        forall|i: int| 0 <= i < rows.len() ==> is_legible(#[trigger] rows[i]),
    ensures
        chosen_text(
            file_bytes(rows_text(rows)),
            utf_16le,
            utf_16be,
            gb18030,
            big5,
        ) matches Some((text, encoding)) && encoding == "UTF-8"@ && without_numbers(
            numbered_entries(text),
        ) == row_entries(rows),
{
    law_saved_text_reads_back(rows_text(rows), utf_16le, utf_16be, gb18030, big5);
    law_saved_rows_read_back(rows);
}

/// Saved rows can be read as a list in which no word occurs twice, if none does.
pub proof fn law_saved_words_differ(rows: Seq<RowText>)
    requires
        forall|i: int| 0 <= i < rows.len() ==> is_legible(#[trigger] rows[i]),
        forall|i: int, j: int|
            0 <= j < i < row_entries(rows).len() ==> (#[trigger] row_entries(rows)[j]).word != (
            #[trigger] row_entries(rows)[i]).word,
    ensures
        words_differ(numbered_entries(rows_text(rows))),
{
    law_saved_rows_read_back(rows);
    let found = numbered_entries(rows_text(rows));
    assert forall|i: int, j: int| 0 <= j < i < found.len() implies (#[trigger] found[j]).1.word != (
    #[trigger] found[i]).1.word by {
        assert(without_numbers(found)[i] == found[i].1);
        assert(without_numbers(found)[j] == found[j].1);
    }
}

// Frequency lists

/// The row in which a word of a frequency list would be revised.
spec fn frequency_row(entry: FrequencyText) -> RowText {
    crate::editable::fresh_row(
        0,
        entry.word,
        decimal(entry.frequency as nat),
        Seq::<char>::empty(),
    )
}

/// The entries of a frequency list.
pub open spec fn frequency_entries(entries: Seq<FrequencyText>) -> Seq<WordText> {
    Seq::new(
        entries.len(),
        |i: int|
            WordText {
                word: entries[i].word,
                frequency: Some(entries[i].frequency),
                pinyin: None,
            },
    )
}

/// Whether a word stands for itself in a list with frequencies: it has no white space around it,
/// and cannot be taken for a comment, a setting, a byte order mark or more than one field.
pub open spec fn is_legible_word(word: Seq<char>) -> bool {
    &&& word.len() > 0
    &&& trimmed(word) == word
    &&& !word.contains('\t')
    &&& !word.contains('\n')
    &&& word[0] != '\u{feff}'
    &&& !is_skipped(word)
}

/// The words that are extracted from texts stand for themselves.
pub proof fn law_spoken_word_is_legible(word: Seq<char>)
    requires
        word.len() > 0,
        in_pinyin_table(word),
    ensures
        is_legible_word(word),
{
    assert('\u{3007}' <= word[0] && '\u{3007}' <= word[word.len() - 1]);
    lemma_is_trimmed(word);
    assert forall|i: int| 0 <= i < word.len() implies word[i] != '\t' && word[i] != '\n' by {
        assert('\u{3007}' <= word[i]);
    }
    reveal_strlit("---config@");
    assert("---config@"@[0] == '-');
    if "---config@"@.is_prefix_of(word) {
        assert("---config@"@[0] == word[0]);
    }
}

proof fn lemma_frequency_row(entry: FrequencyText)
    requires
        is_legible_word(entry.word),
    ensures
        is_legible(frequency_row(entry)),
        row_line(frequency_row(entry)) == entry.word + seq!['\t'] + decimal(
            entry.frequency as nat,
        ),
        row_entry(frequency_row(entry)) == Ok::<WordText, Seq<char>>(
            WordText { word: entry.word, frequency: Some(entry.frequency), pinyin: None },
        ),
{
    let number = decimal(entry.frequency as nat);
    let none = Seq::<char>::empty();
    law_decimal_reads_back(entry.frequency);
    lemma_number_is_solid(number);
    assert(!CharClass::WhiteSpace.has(number[0]));
    assert(!CharClass::WhiteSpace.has(number[number.len() - 1]));
    lemma_is_trimmed(number);
    lemma_is_trimmed(none);
    lemma_typed_syllables(none);
}

proof fn lemma_frequency_rows(entries: Seq<FrequencyText>, rows: Seq<RowText>)
    requires
        rows.len() == entries.len(),
        forall|i: int| 0 <= i < entries.len() ==> #[trigger] rows[i] == frequency_row(entries[i]),
        forall|i: int| 0 <= i < entries.len() ==> is_legible_word((#[trigger] entries[i]).word),
    ensures
        frequency_lines(entries) == row_lines(rows),
        row_entries(rows) == frequency_entries(entries),
    decreases entries.len(),
{
    if entries.len() > 0 {
        let n = entries.len() - 1;
        assert(rows[n] == frequency_row(entries[n]));
        lemma_frequency_row(entries[n]);
        assert forall|i: int| 0 <= i < n implies #[trigger] rows.drop_last()[i] == frequency_row(
            entries.drop_last()[i],
        ) by {
            assert(rows[i] == frequency_row(entries[i]));
        }
        assert forall|i: int| 0 <= i < n implies is_legible_word(
            (#[trigger] entries.drop_last()[i]).word,
        ) by {
            assert(is_legible_word(entries[i].word));
        }
        lemma_frequency_rows(entries.drop_last(), rows.drop_last());
    }
    assert(frequency_lines(entries) =~= row_lines(rows));
    assert(row_entries(rows) =~= frequency_entries(entries));
}

/// A frequency list is read back: its words with their frequencies, in their order. If no word
/// occurs in it twice, it can be read as such a list.
pub proof fn law_frequency_list_reads_back(entries: Seq<FrequencyText>)
    requires
        forall|i: int| 0 <= i < entries.len() ==> is_legible_word((#[trigger] entries[i]).word),
    ensures
        without_numbers(numbered_entries(frequency_text(entries))) == frequency_entries(entries),
        word_entries(frequency_text(entries)) == frequency_entries(entries),
        (forall|i: int, j: int|
            0 <= j < i < entries.len() ==> (#[trigger] entries[j]).word != (
            #[trigger] entries[i]).word) ==> words_differ(
            numbered_entries(frequency_text(entries)),
        ),
{
    let head = "# 词语\t词频\t拼音（可选；多音字可填空格分隔的无声调拼音）\n"@;
    reveal_strlit("# 词语\t词频\t拼音（可选；多音字可填空格分隔的无声调拼音）\n");
    let line = head.drop_last();
    assert(head =~= line + seq!['\n']);
    lemma_head_holds_nothing(line);
    let rows = Seq::new(entries.len(), |i: int| frequency_row(entries[i]));
    lemma_frequency_rows(entries, rows);
    assert forall|i: int| 0 <= i < rows.len() implies is_legible(#[trigger] rows[i]) by {
        assert(is_legible_word(entries[i].word));
        lemma_frequency_row(entries[i]);
    }
    lemma_rows_read_back(head, rows);
    let found = numbered_entries(frequency_text(entries));
    let read = frequency_entries(entries);
    assert(without_numbers(found) == read);
    assert forall|i: int| 0 <= i < found.len() implies normal_entry((#[trigger] found[i]).1)
        == read[i] by {
        assert(without_numbers(found)[i] == found[i].1);
        assert(read[i].pinyin is None);
        assert(normal_entry(read[i]) == read[i]);
    }
    assert(word_entries(frequency_text(entries)) =~= frequency_entries(entries));
    if forall|i: int, j: int|
        0 <= j < i < entries.len() ==> (#[trigger] entries[j]).word != (#[trigger] entries[i]).word {
        assert forall|i: int, j: int| 0 <= j < i < found.len() implies (
        #[trigger] found[j]).1.word != (#[trigger] found[i]).1.word by {
            assert(without_numbers(found)[i] == found[i].1);
            assert(without_numbers(found)[j] == found[j].1);
            assert(entries[j].word != entries[i].word);
        }
    }
}

} // verus!
