//! What the lines of a word list are read as.

use crate::entry::WordText;
use crate::laws::texts::{
    law_only_empty_pieces_are_left_out, law_other_text_is_no_number, law_start_is_cut_off,
    law_trimming_cuts_white_space_off,
};
use crate::round_trip::{
    is_free_of, lemma_filled_of_both, lemma_filled_of_last, lemma_is_trimmed, lemma_pieces_around,
    lemma_pieces_of_free, lemma_syllables_in_trimmed, syllables_of_text,
};
use crate::syllable::normalized;
use crate::text::{
    decimal, filled, is_white_space, joined, lemma_pieces_not_empty, number_value, pieces, trimmed,
    CharClass,
};
use crate::word_list::{
    fields_entry, fields_of, is_first_repeated, is_repeated, is_skipped, line_core, line_entry, numbered,
    numbered_entries, repeated_message, syllables_in, trimmed_all, word_entries, words_differ,
};
use vstd::prelude::*;

verus! {

// Syllables of fields

/// Whether a class of characters parts syllables.
spec fn parts_syllables(class: CharClass) -> bool {
    forall|c: char| #[trigger] class.has(c) ==> CharClass::SyllableSeparator.has(c)
}

/// Splitting by such a class and then into syllables is splitting into syllables: all but the last
/// pieces are the same, and so is the last.
proof fn lemma_class_separates(s: Seq<char>, class: CharClass)
    requires
        parts_syllables(class),
    ensures
        pieces(s, CharClass::SyllableSeparator).last() == pieces(
            pieces(s, class).last(),
            CharClass::SyllableSeparator,
        ).last(),
        filled(pieces(s, CharClass::SyllableSeparator).drop_last()) == syllables_in(
            pieces(s, class).drop_last(),
        ) + filled(
            pieces(pieces(s, class).last(), CharClass::SyllableSeparator).drop_last(),
        ),
    decreases s.len(),
{
    let fields = pieces(s, class);
    let parts = pieces(s, CharClass::SyllableSeparator);
    let last_parts = pieces(fields.last(), CharClass::SyllableSeparator);
    if s.len() == 0 {
        assert(fields.drop_last() =~= Seq::empty());
        assert(parts.drop_last() =~= Seq::empty());
        assert(last_parts =~= parts);
        assert(filled(parts.drop_last()) =~= Seq::empty());
        assert(syllables_in(fields.drop_last()) =~= Seq::empty());
    } else {
        let c = s.last();
        let old_fields = pieces(s.drop_last(), class);
        let old_parts = pieces(s.drop_last(), CharClass::SyllableSeparator);
        let old_last = pieces(old_fields.last(), CharClass::SyllableSeparator);
        lemma_class_separates(s.drop_last(), class);
        lemma_pieces_not_empty(s.drop_last(), class);
        lemma_pieces_not_empty(s.drop_last(), CharClass::SyllableSeparator);
        lemma_pieces_not_empty(old_fields.last(), CharClass::SyllableSeparator);
        lemma_filled_of_last(old_parts);
        lemma_filled_of_last(old_last);
        if class.has(c) {
            assert(CharClass::SyllableSeparator.has(c));
            assert(fields.drop_last() =~= old_fields);
            assert(parts.drop_last() =~= old_parts);
            assert(last_parts.drop_last() =~= Seq::empty());
            assert(filled(old_parts) =~= syllables_in(old_fields));
            assert(filled(last_parts.drop_last()) =~= Seq::empty());
            assert(filled(parts.drop_last()) =~= syllables_in(fields.drop_last()) + filled(
                last_parts.drop_last(),
            ));
        } else {
            let longer = old_fields.last().push(c);
            assert(longer.drop_last() =~= old_fields.last());
            assert(fields.last() == longer);
            assert(fields.drop_last() =~= old_fields.drop_last());
            if CharClass::SyllableSeparator.has(c) {
                assert(parts.drop_last() =~= old_parts);
                assert(last_parts.drop_last() =~= old_last);
                assert(filled(parts.drop_last()) =~= syllables_in(fields.drop_last()) + filled(
                    last_parts.drop_last(),
                ));
            } else {
                assert(parts.drop_last() =~= old_parts.drop_last());
                assert(last_parts.drop_last() =~= old_last.drop_last());
            }
        }
    }
}

proof fn lemma_syllables_of_pieces(s: Seq<char>, class: CharClass)
    requires
        parts_syllables(class),
    ensures
        syllables_in(pieces(s, class)) == syllables_of_text(s),
{
    let fields = pieces(s, class);
    let parts = pieces(s, CharClass::SyllableSeparator);
    let last_parts = pieces(fields.last(), CharClass::SyllableSeparator);
    lemma_class_separates(s, class);
    lemma_pieces_not_empty(s, class);
    lemma_pieces_not_empty(s, CharClass::SyllableSeparator);
    lemma_pieces_not_empty(fields.last(), CharClass::SyllableSeparator);
    lemma_filled_of_last(parts);
    lemma_filled_of_last(last_parts);
    assert(filled(parts) =~= syllables_in(fields));
}

proof fn lemma_no_syllables_in_nothing(s: Seq<char>)
    requires
        s.len() == 0,
    ensures
        syllables_of_text(s) == Seq::<Seq<char>>::empty(),
        syllables_in(seq![s]) == Seq::<Seq<char>>::empty(),
{
    assert(s =~= Seq::empty());
    let parts = pieces(s, CharClass::SyllableSeparator);
    assert(parts.drop_last() =~= Seq::empty());
    assert(filled(Seq::<Seq<char>>::empty()) =~= Seq::empty());
    assert(seq![s].drop_last() =~= Seq::empty());
    assert(syllables_in(Seq::<Seq<char>>::empty()) =~= Seq::empty());
    assert(syllables_in(seq![s]) =~= Seq::empty());
}

proof fn lemma_syllables_in_filled(list: Seq<Seq<char>>)
    ensures
        syllables_in(filled(list)) == syllables_in(list),
    decreases list.len(),
{
    if list.len() > 0 {
        lemma_syllables_in_filled(list.drop_last());
        if list.last().len() == 0 {
            lemma_no_syllables_in_nothing(list.last());
            assert(syllables_in(list) =~= syllables_in(list.drop_last()));
        } else {
            let longer = filled(list.drop_last()).push(list.last());
            assert(longer.drop_last() =~= filled(list.drop_last()));
        }
    }
}

// One line

/// Whether a text can stand at the beginning of a line as its word: it has no white space around
/// it and cannot be taken for a comment, a setting or a byte order mark.
pub open spec fn starts_entry(word: Seq<char>) -> bool {
    &&& word.len() > 0
    &&& !is_white_space(word[0])
    &&& !is_white_space(word.last())
    &&& word[0] != '#'
    &&& word[0] != '\u{feff}'
    &&& !"---config@"@.is_prefix_of(word)
}

/// The syllables typed in a text: what stands between separators, without what is empty.
pub open spec fn typed_list(s: Seq<char>) -> Seq<Seq<char>> {
    pieces(s, CharClass::SyllableSeparator).filter(|piece: Seq<char>| piece.len() > 0)
}

/// The pinyin of an entry that has the given syllables: none where there are none.
pub open spec fn typed_pinyin(list: Seq<Seq<char>>) -> Option<Seq<Seq<char>>> {
    if list.len() == 0 {
        None
    } else {
        Some(list)
    }
}

proof fn lemma_line_is_read(word: Seq<char>, rest: Seq<char>)
    requires
        starts_entry(word),
        rest.len() > 0,
        is_white_space(rest[0]),
        !is_white_space(rest.last()),
    ensures
        line_core(word + rest) == word + rest,
        !is_skipped(word + rest),
{
    let line = word + rest;
    assert(line[0] == word[0]);
    assert(line.last() == rest.last());
    lemma_is_trimmed(line);
    reveal_strlit("---config@");
    let head = "---config@"@;
    if head.is_prefix_of(line) {
        if word.len() >= head.len() {
            assert forall|i: int| 0 <= i < head.len() implies head[i] == word[i] by {
                assert(head[i] == line[i]);
            }
            assert(head =~= word.take(head.len() as int));
            assert(head.is_prefix_of(word));
        } else {
            let k = word.len() as int;
            assert(line[k] == rest[0]);
            assert(head[k] == line[k]);
        }
    }
}

/// The fields of a line whose word is followed by white space and a tab.
proof fn lemma_fields_after_tab(word: Seq<char>, gap: Seq<char>, rest: Seq<char>)
    requires
        starts_entry(word),
        !word.contains('\t'),
        forall|i: int| 0 <= i < gap.len() ==> is_white_space(#[trigger] gap[i]),
        !gap.contains('\t'),
        rest.len() > 0,
        !is_white_space(rest.last()),
    ensures
        line_core(word + gap + seq!['\t'] + rest) == word + gap + seq!['\t'] + rest,
        !is_skipped(word + gap + seq!['\t'] + rest),
        fields_of(word + gap + seq!['\t'] + rest) == seq![word] + trimmed_all(
            pieces(rest, CharClass::Tab),
        ),
{
    let class = CharClass::Tab;
    let first = word + gap;
    let line = first + seq!['\t'] + rest;
    let after_word = gap + seq!['\t'] + rest;
    assert(line =~= word + after_word);
    assert(after_word.last() == rest.last());
    assert(is_white_space(after_word[0])) by {
        if gap.len() > 0 {
            assert(after_word[0] == gap[0]);
        } else {
            assert(after_word[0] == '\t');
        }
    }
    lemma_line_is_read(word, after_word);
    assert(first =~= Seq::empty() + word + gap);
    law_trimming_cuts_white_space_off(Seq::empty(), word, gap);
    assert forall|i: int| 0 <= i < first.len() implies !class.has(#[trigger] first[i]) by {
        if i < word.len() {
            assert(word.contains(word[i]) && first[i] == word[i]);
        } else {
            let k = i - word.len();
            assert(gap.contains(gap[k]) && first[i] == gap[k]);
        }
    }
    lemma_pieces_of_free(first, class);
    lemma_pieces_around(first, '\t', rest, class);
    assert(line[first.len() as int] == '\t');
    assert(line.contains('\t'));
    assert(trimmed_all(pieces(line, class)) =~= seq![word] + trimmed_all(pieces(rest, class)));
}

/// The fields after the word: the first of them, and the syllables in all and in the others.
proof fn lemma_fields_and_syllables(second: Seq<char>, tail: Seq<char>)
    requires
        !second.contains('\t'),
        tail.len() > 0 ==> tail[0] == '\t',
    ensures
        trimmed_all(pieces(second + tail, CharClass::Tab)).len() > 0,
        trimmed_all(pieces(second + tail, CharClass::Tab))[0] == trimmed(second),
        syllables_in(trimmed_all(pieces(second + tail, CharClass::Tab))) == typed_list(
            second + tail,
        ),
        syllables_in(trimmed_all(pieces(second + tail, CharClass::Tab)).skip(1)) == typed_list(
            tail,
        ),
{
    let class = CharClass::Tab;
    let rest = second + tail;
    crate::round_trip::lemma_without_char(second, '\t', class);
    lemma_pieces_of_free(second, class);
    let after = trimmed_all(pieces(rest, class));
    assert(parts_syllables(class));
    lemma_syllables_of_pieces(rest, class);
    lemma_syllables_in_trimmed(pieces(rest, class));
    law_only_empty_pieces_are_left_out(pieces(rest, CharClass::SyllableSeparator));
    law_only_empty_pieces_are_left_out(pieces(tail, CharClass::SyllableSeparator));
    if tail.len() == 0 {
        assert(rest =~= second);
        assert(pieces(rest, class) =~= seq![second]);
        assert(after =~= seq![trimmed(second)]);
        assert(after.skip(1) =~= Seq::empty());
        assert(syllables_in(after.skip(1)) =~= Seq::empty());
        lemma_no_syllables_in_nothing(tail);
    } else {
        let others = tail.skip(1);
        assert(rest =~= second + seq!['\t'] + others);
        lemma_pieces_around(second, '\t', others, class);
        assert(pieces(rest, class) =~= seq![second] + pieces(others, class));
        assert(after =~= seq![trimmed(second)] + trimmed_all(pieces(others, class)));
        assert(after.skip(1) =~= trimmed_all(pieces(others, class)));
        lemma_syllables_of_pieces(others, class);
        lemma_syllables_in_trimmed(pieces(others, class));
        lemma_leading_separator('\t', others);
        assert(tail =~= seq!['\t'] + others);
    }
}

/// A line of fields between tabs: the first field, without the white space after it, is the word.
/// If the second is a number, it is the frequency, and all syllables after it are the pinyin; if it
/// is none, there is no frequency, and all syllables after the word are the pinyin.
pub proof fn law_line_with_tabs(
    word: Seq<char>,
    gap: Seq<char>,
    second: Seq<char>,
    tail: Seq<char>,
)
    requires
        starts_entry(word),
        !word.contains('\t'),
        forall|i: int| 0 <= i < gap.len() ==> is_white_space(#[trigger] gap[i]),
        !gap.contains('\t'),
        !second.contains('\t'),
        tail.len() > 0 ==> tail[0] == '\t',
        (second + tail).len() > 0,
        !is_white_space((second + tail).last()),
    ensures
        line_entry(word + gap + seq!['\t'] + (second + tail)) == Some(
            match number_value(trimmed(second)) {
                Some(number) => WordText {
                    word,
                    frequency: Some(number),
                    pinyin: typed_pinyin(typed_list(tail)),
                },
                None => WordText {
                    word,
                    frequency: None,
                    pinyin: typed_pinyin(typed_list(second + tail)),
                },
            },
        ),
{
    let rest = second + tail;
    let after = trimmed_all(pieces(rest, CharClass::Tab));
    let fields = fields_of(word + gap + seq!['\t'] + rest);
    lemma_fields_after_tab(word, gap, rest);
    lemma_fields_and_syllables(second, tail);
    assert(fields[0] == word);
    assert(fields[1] == after[0]);
    assert(fields.skip(1) =~= after);
    assert(fields.skip(2) =~= after.skip(1));
}

/// A separator at the beginning adds no syllable.
proof fn lemma_leading_separator(c: char, s: Seq<char>)
    requires
        CharClass::SyllableSeparator.has(c),
    ensures
        syllables_of_text(seq![c] + s) == syllables_of_text(s),
{
    let class = CharClass::SyllableSeparator;
    let none = Seq::<char>::empty();
    assert(seq![c] + s =~= none + seq![c] + s);
    lemma_pieces_around(none, c, s, class);
    lemma_filled_of_both(pieces(none, class), pieces(s, class));
    lemma_no_syllables_in_nothing(none);
    assert(syllables_of_text(none) == filled(pieces(none, class)));
    assert(syllables_of_text(seq![c] + s) =~= syllables_of_text(s));
}

/// White space before something adds no field.
proof fn lemma_leading_white_space(gap: Seq<char>, s: Seq<char>)
    requires
        forall|i: int| 0 <= i < gap.len() ==> is_white_space(#[trigger] gap[i]),
    ensures
        filled(pieces(gap + s, CharClass::WhiteSpace)) == filled(pieces(s, CharClass::WhiteSpace)),
    decreases gap.len(),
{
    let class = CharClass::WhiteSpace;
    if gap.len() == 0 {
        assert(gap + s =~= s);
    } else {
        let rest = gap.drop_first();
        assert forall|i: int| 0 <= i < rest.len() implies is_white_space(#[trigger] rest[i]) by {
            assert(rest[i] == gap[i + 1]);
        }
        let none = Seq::<char>::empty();
        assert(is_white_space(gap[0]));
        assert(gap + s =~= none + seq![gap[0]] + (rest + s));
        lemma_pieces_around(none, gap[0], rest + s, class);
        lemma_filled_of_both(pieces(none, class), pieces(rest + s, class));
        assert(pieces(none, class).drop_last() =~= Seq::empty());
        assert(filled(Seq::<Seq<char>>::empty()) =~= Seq::empty());
        assert(filled(pieces(none, class)) =~= Seq::empty());
        assert(filled(pieces(gap + s, class)) =~= filled(pieces(rest + s, class)));
        lemma_leading_white_space(rest, s);
    }
}

/// A field and what follows it after white space.
proof fn lemma_first_field(field: Seq<char>, tail: Seq<char>)
    requires
        field.len() > 0,
        is_free_of(field, CharClass::WhiteSpace),
        tail.len() > 0 ==> is_white_space(tail[0]),
    ensures
        filled(pieces(field + tail, CharClass::WhiteSpace)) == seq![field] + filled(
            pieces(tail, CharClass::WhiteSpace),
        ),
{
    let class = CharClass::WhiteSpace;
    lemma_pieces_of_free(field, class);
    assert(seq![field].drop_last() =~= Seq::empty());
    assert(filled(Seq::<Seq<char>>::empty()) =~= Seq::empty());
    assert(filled(seq![field]) =~= seq![field]);
    if tail.len() == 0 {
        assert(field + tail =~= field);
        assert(tail =~= Seq::empty());
        assert(pieces(tail, class).drop_last() =~= Seq::empty());
        assert(filled(pieces(tail, class)) =~= Seq::empty());
        assert(seq![field] + filled(pieces(tail, class)) =~= seq![field]);
    } else {
        let rest = tail.skip(1);
        assert(field + tail =~= field + seq![tail[0]] + rest);
        lemma_pieces_around(field, tail[0], rest, class);
        lemma_filled_of_both(pieces(field, class), pieces(rest, class));
        let gap = seq![tail[0]];
        assert forall|i: int| 0 <= i < gap.len() implies is_white_space(#[trigger] gap[i]) by {
        }
        lemma_leading_white_space(gap, rest);
        assert(gap + rest =~= tail);
    }
}

/// A line without tabs: its fields stand between white space, and they are read as those between
/// tabs are.
pub proof fn law_line_without_tabs(
    word: Seq<char>,
    gap: Seq<char>,
    second: Seq<char>,
    tail: Seq<char>,
)
    requires
        starts_entry(word),
        is_free_of(word, CharClass::WhiteSpace),
        gap.len() > 0,
        forall|i: int| 0 <= i < gap.len() ==> is_white_space(#[trigger] gap[i]),
        second.len() > 0,
        is_free_of(second, CharClass::WhiteSpace),
        tail.len() > 0 ==> is_white_space(tail[0]) && !is_white_space(tail.last()),
        !gap.contains('\t'),
        !tail.contains('\t'),
    ensures
        line_entry(word + (gap + (second + tail))) == Some(
            match number_value(second) {
                Some(number) => WordText {
                    word,
                    frequency: Some(number),
                    pinyin: typed_pinyin(typed_list(tail)),
                },
                None => WordText {
                    word,
                    frequency: None,
                    pinyin: typed_pinyin(typed_list(second + tail)),
                },
            },
        ),
{
    let class = CharClass::WhiteSpace;
    let both = second + tail;
    let rest = gap + both;
    let line = word + rest;
    assert(rest[0] == gap[0]);
    assert(!is_white_space(rest.last())) by {
        if tail.len() > 0 {
            assert(rest.last() == tail.last());
        } else {
            assert(rest.last() == second[second.len() - 1]);
            assert(!class.has(second[second.len() - 1]));
        }
    }
    lemma_line_is_read(word, rest);
    assert(!line.contains('\t')) by {
        assert forall|i: int| 0 <= i < line.len() implies line[i] != '\t' by {
            let a = word.len() as int;
            let b = a + gap.len();
            let c = b + second.len();
            if i < a {
                assert(!class.has(word[i]));
                assert(line[i] == word[i]);
            } else if i < b {
                assert(gap.contains(gap[i - a]));
                assert(line[i] == gap[i - a]);
            } else if i < c {
                assert(!class.has(second[i - b]));
                assert(line[i] == second[i - b]);
            } else {
                assert(tail.contains(tail[i - c]));
                assert(line[i] == tail[i - c]);
            }
        }
    }
    lemma_first_field(word, rest);
    lemma_leading_white_space(gap, both);
    lemma_first_field(second, tail);
    let fields = fields_of(line);
    let others = filled(pieces(tail, class));
    assert(fields =~= seq![word] + (seq![second] + others));
    assert(fields[0] == word);
    assert(fields[1] == second);
    assert(fields.skip(1) =~= filled(pieces(both, class)));
    assert(fields.skip(2) =~= others);
    assert(parts_syllables(class));
    lemma_syllables_in_filled(pieces(both, class));
    lemma_syllables_of_pieces(both, class);
    lemma_syllables_in_filled(pieces(tail, class));
    lemma_syllables_of_pieces(tail, class);
    law_only_empty_pieces_are_left_out(pieces(both, CharClass::SyllableSeparator));
    law_only_empty_pieces_are_left_out(pieces(tail, CharClass::SyllableSeparator));
}

/// A line of one field is a word without frequency and pinyin.
pub proof fn law_line_of_one_word(word: Seq<char>)
    requires
        starts_entry(word),
        is_free_of(word, CharClass::WhiteSpace),
    ensures
        line_entry(word) == Some(WordText { word, frequency: None, pinyin: None }),
{
    lemma_is_trimmed(word);
    assert(!word.contains('\t')) by {
        assert forall|i: int| 0 <= i < word.len() implies word[i] != '\t' by {
            assert(!CharClass::WhiteSpace.has(word[i]));
        }
    }
    crate::round_trip::lemma_entry_of_word(word);
}

/// Syllables are parted by each separator; what holds none is one syllable, unless it is empty.
pub proof fn law_syllables_between_separators(s: Seq<char>, c: char, t: Seq<char>)
    requires
        CharClass::SyllableSeparator.has(c),
    ensures
        typed_list(Seq::empty()) == Seq::<Seq<char>>::empty(),
        s.len() > 0 && is_free_of(s, CharClass::SyllableSeparator) ==> typed_list(s) == seq![s],
        typed_list(s + seq![c] + t) == typed_list(s) + typed_list(t),
{
    let class = CharClass::SyllableSeparator;
    let none = Seq::<char>::empty();
    let whole = s + seq![c] + t;
    law_only_empty_pieces_are_left_out(pieces(none, class));
    law_only_empty_pieces_are_left_out(pieces(s, class));
    law_only_empty_pieces_are_left_out(pieces(t, class));
    law_only_empty_pieces_are_left_out(pieces(whole, class));
    lemma_no_syllables_in_nothing(none);
    if s.len() > 0 && is_free_of(s, class) {
        lemma_pieces_of_free(s, class);
        assert(seq![s].drop_last() =~= Seq::empty());
        assert(filled(Seq::<Seq<char>>::empty()) =~= Seq::empty());
        assert(filled(seq![s]) =~= seq![s]);
    }
    lemma_pieces_around(s, c, t, class);
    lemma_filled_of_both(pieces(s, class), pieces(t, class));
}

/// Whether a list of syllables can be typed: none is empty, and none holds a separator.
pub open spec fn can_be_typed(list: Seq<Seq<char>>) -> bool {
    forall|i: int|
        0 <= i < list.len() ==> (#[trigger] list[i]).len() > 0 && is_free_of(
            list[i],
            CharClass::SyllableSeparator,
        )
}

/// The syllables typed with a separator between each two are all found, in their order, however
/// many they are.
pub proof fn law_typed_syllables_are_found(list: Seq<Seq<char>>, separator: char)
    requires
        can_be_typed(list),
        CharClass::SyllableSeparator.has(separator),
    ensures
        typed_list(joined(list, seq![separator])) == list,
    decreases list.len(),
{
    let gap = seq![separator];
    if list.len() == 0 {
        law_syllables_between_separators(Seq::empty(), separator, Seq::empty());
        assert(list =~= Seq::empty());
    } else {
        let before = list.drop_last();
        let last = list[list.len() - 1];
        assert(last.len() > 0 && is_free_of(last, CharClass::SyllableSeparator));
        law_syllables_between_separators(last, separator, last);
        if list.len() == 1 {
            assert(list =~= seq![last]);
        } else {
            assert forall|i: int| 0 <= i < before.len() implies (#[trigger] before[i]).len() > 0
                && is_free_of(before[i], CharClass::SyllableSeparator) by {
                assert(before[i] == list[i]);
            }
            law_typed_syllables_are_found(before, separator);
            law_syllables_between_separators(joined(before, gap), separator, last);
            assert(list =~= before + seq![last]);
        }
    }
}

/// What is typed begins and ends as its first and last syllables do.
proof fn lemma_typed_ends(list: Seq<Seq<char>>, separator: char)
    requires
        can_be_typed(list),
        list.len() > 0,
    ensures
        joined(list, seq![separator]).len() >= list[0].len(),
        joined(list, seq![separator])[0] == list[0][0],
        joined(list, seq![separator]).last() == list.last().last(),
        list.len() > 1 ==> joined(list, seq![separator]).len() > list[0].len() && joined(
            list,
            seq![separator],
        )[list[0].len() as int] == separator,
    decreases list.len(),
{
    let gap = seq![separator];
    let last = list[list.len() - 1];
    assert(last.len() > 0);
    assert(list[0].len() > 0);
    if list.len() > 1 {
        let before = list.drop_last();
        assert forall|i: int| 0 <= i < before.len() implies (#[trigger] before[i]).len() > 0
            && is_free_of(before[i], CharClass::SyllableSeparator) by {
            assert(before[i] == list[i]);
        }
        lemma_typed_ends(before, separator);
        let head = joined(before, gap);
        let text = joined(list, gap);
        assert(text == head + gap + last);
        assert(text[0] == head[0]);
        assert(text.last() == last.last());
        if list.len() > 2 {
            assert(text[list[0].len() as int] == head[list[0].len() as int]);
        } else {
            assert(head == list[0]);
        }
    }
}

proof fn lemma_typed_chars(list: Seq<Seq<char>>, separator: char, c: char)
    requires
        can_be_typed(list),
        CharClass::SyllableSeparator.has(c),
        c != separator,
    ensures
        !joined(list, seq![separator]).contains(c),
    decreases list.len(),
{
    let gap = seq![separator];
    let text = joined(list, gap);
    if list.len() > 0 {
        let last = list[list.len() - 1];
        assert(last.len() > 0 && is_free_of(last, CharClass::SyllableSeparator));
        let before = list.drop_last();
        assert forall|i: int| 0 <= i < before.len() implies (#[trigger] before[i]).len() > 0
            && is_free_of(before[i], CharClass::SyllableSeparator) by {
            assert(before[i] == list[i]);
        }
        lemma_typed_chars(before, separator, c);
        let head = joined(before, gap);
        assert forall|i: int| 0 <= i < text.len() implies text[i] != c by {
            if list.len() == 1 {
                assert(text == last);
                assert(!CharClass::SyllableSeparator.has(last[i]));
            } else if i < head.len() {
                assert(head.contains(head[i]));
                assert(text[i] == head[i]);
            } else if i > head.len() {
                assert(text[i] == last[i - head.len() - 1]);
                assert(!CharClass::SyllableSeparator.has(last[i - head.len() - 1]));
            }
        }
    }
}

/// A word, a tab and syllables are read as the word without frequency and with all the syllables,
/// in their order, however many they are.
pub proof fn law_word_and_pinyin(word: Seq<char>, list: Seq<Seq<char>>, separator: char)
    requires
        starts_entry(word),
        !word.contains('\t'),
        can_be_typed(list),
        list.len() > 0,
        CharClass::SyllableSeparator.has(separator),
        separator != '\t',
        list.len() > 1 || number_value(list[0]) is None,
    ensures
        line_entry(word + seq!['\t'] + joined(list, seq![separator])) == Some(
            WordText { word, frequency: None, pinyin: Some(list) },
        ),
{
    let text = joined(list, seq![separator]);
    let none = Seq::<char>::empty();
    lemma_typed_ends(list, separator);
    lemma_typed_chars(list, separator, '\t');
    law_typed_syllables_are_found(list, separator);
    lemma_syllables_are_solid(list);
    assert(text + none =~= text);
    lemma_is_trimmed(text);
    if list.len() > 1 {
        law_other_text_is_no_number(text, list[0].len() as int);
    }
    assert(word + none =~= word);
    law_line_with_tabs(word, none, text, none);
}

/// A word, a tab, a number, a tab and syllables are read as the word with the number as its
/// frequency and with all the syllables, in their order, however many they are.
pub proof fn law_word_number_and_pinyin(
    word: Seq<char>,
    number: Seq<char>,
    list: Seq<Seq<char>>,
    separator: char,
)
    requires
        starts_entry(word),
        !word.contains('\t'),
        number_value(number) is Some,
        can_be_typed(list),
        list.len() > 0,
        CharClass::SyllableSeparator.has(separator),
    ensures
        line_entry(
            word + seq!['\t'] + (number + (seq!['\t'] + joined(list, seq![separator]))),
        ) == Some(WordText { word, frequency: number_value(number), pinyin: Some(list) }),
{
    let text = joined(list, seq![separator]);
    let tail = seq!['\t'] + text;
    let none = Seq::<char>::empty();
    lemma_typed_ends(list, separator);
    law_typed_syllables_are_found(list, separator);
    law_syllables_between_separators(none, '\t', text);
    assert(tail =~= none + seq!['\t'] + text);
    assert(typed_list(tail) =~= list);
    lemma_syllables_are_solid(list);
    assert((number + tail).last() == text.last());
    lemma_number_is_one_field(number);
    assert(word + none =~= word);
    law_line_with_tabs(word, none, number, tail);
}

/// A word, a tab and a number are read as the word with the number as its frequency.
pub proof fn law_word_and_number(word: Seq<char>, number: Seq<char>)
    requires
        starts_entry(word),
        !word.contains('\t'),
        number_value(number) is Some,
    ensures
        line_entry(word + seq!['\t'] + number) == Some(
            WordText { word, frequency: number_value(number), pinyin: None },
        ),
{
    let none = Seq::<char>::empty();
    lemma_number_is_one_field(number);
    assert(number + none =~= number);
    law_syllables_between_separators(none, ' ', none);
    assert(word + none =~= word);
    law_line_with_tabs(word, none, number, none);
}

proof fn lemma_number_is_one_field(number: Seq<char>)
    requires
        number_value(number) is Some,
    ensures
        number.len() > 0,
        !number.contains('\t'),
        !is_white_space(number.last()),
        trimmed(number) == number,
{
    crate::round_trip::lemma_number_is_solid(number);
    assert(!CharClass::WhiteSpace.has(number[0]));
    assert(!CharClass::WhiteSpace.has(number[number.len() - 1]));
    lemma_is_trimmed(number);
    assert forall|i: int| 0 <= i < number.len() implies number[i] != '\t' by {
        assert(!CharClass::WhiteSpace.has(number[i]));
    }
}

proof fn lemma_syllables_are_solid(list: Seq<Seq<char>>)
    requires
        can_be_typed(list),
        list.len() > 0,
    ensures
        list[0].len() > 0,
        list.last().len() > 0,
        !is_white_space(list[0][0]),
        !is_white_space(list.last().last()),
{
    let first = list[0];
    let last = list[list.len() - 1];
    assert(first.len() > 0 && is_free_of(first, CharClass::SyllableSeparator));
    assert(last.len() > 0 && is_free_of(last, CharClass::SyllableSeparator));
    assert(!CharClass::SyllableSeparator.has(first[0]));
    assert(!CharClass::SyllableSeparator.has(last[last.len() - 1]));
}

/// White space around a line and byte order marks before it do not matter.
pub proof fn law_around_a_line(
    before: Seq<char>,
    marks: Seq<char>,
    line: Seq<char>,
    after: Seq<char>,
)
    requires
        forall|i: int| 0 <= i < before.len() ==> is_white_space(#[trigger] before[i]),
        forall|i: int| 0 <= i < marks.len() ==> #[trigger] marks[i] == '\u{feff}',
        forall|i: int| 0 <= i < after.len() ==> is_white_space(#[trigger] after[i]),
        line.len() > 0,
        !is_white_space(line[0]),
        !is_white_space(line.last()),
        line[0] != '\u{feff}',
    ensures
        line_entry(before + (marks + line) + after) == line_entry(line),
{
    let core = marks + line;
    assert(core[0] == if marks.len() > 0 {
        marks[0]
    } else {
        line[0]
    });
    assert(core.last() == line.last());
    law_trimming_cuts_white_space_off(before, core, after);
    law_start_is_cut_off(marks, line, CharClass::ByteOrderMark);
    lemma_is_trimmed(line);
}

/// A line that is blank, a comment or a setting has no entry, whatever white space and byte order
/// marks stand before it.
pub proof fn law_line_without_entry(
    before: Seq<char>,
    marks: Seq<char>,
    line: Seq<char>,
    after: Seq<char>,
)
    requires
        forall|i: int| 0 <= i < before.len() ==> is_white_space(#[trigger] before[i]),
        forall|i: int| 0 <= i < marks.len() ==> #[trigger] marks[i] == '\u{feff}',
        forall|i: int| 0 <= i < after.len() ==> is_white_space(#[trigger] after[i]),
        line.len() == 0 || (line[0] == '#' || "---config@"@.is_prefix_of(line)) && !is_white_space(
            line.last(),
        ),
    ensures
        line_entry(before + (marks + line) + after) is None,
{
    let core = marks + line;
    reveal_strlit("---config@");
    if line.len() > 0 {
        if line[0] != '#' {
            assert("---config@"@[0] == line[0]);
        }
        assert(core[0] == if marks.len() > 0 {
            marks[0]
        } else {
            line[0]
        });
        assert(core.last() == line.last());
    } else {
        assert(core =~= marks);
        if marks.len() > 0 {
            assert(core[0] == marks[0]);
            assert(core.last() == marks[marks.len() - 1]);
        }
    }
    law_trimming_cuts_white_space_off(before, core, after);
    law_start_is_cut_off(marks, line, CharClass::ByteOrderMark);
}

/// What counts of a line after byte order marks is all that follows them, white space too; the
/// fields stand between tabs if there is one, each without the white space around it, and between
/// white space otherwise.
pub proof fn law_fields_of_a_line(
    before: Seq<char>,
    marks: Seq<char>,
    line: Seq<char>,
    after: Seq<char>,
)
    requires
        forall|i: int| 0 <= i < before.len() ==> is_white_space(#[trigger] before[i]),
        marks.len() > 0,
        forall|i: int| 0 <= i < marks.len() ==> #[trigger] marks[i] == '\u{feff}',
        forall|i: int| 0 <= i < after.len() ==> is_white_space(#[trigger] after[i]),
        line.len() > 0,
        line[0] != '\u{feff}',
        line[0] != '#',
        !"---config@"@.is_prefix_of(line),
        !is_white_space(line.last()),
    ensures
        line_entry(before + (marks + line) + after) == fields_entry(
            if line.contains('\t') {
                pieces(line, CharClass::Tab).map_values(|field: Seq<char>| trimmed(field))
            } else {
                pieces(line, CharClass::WhiteSpace).filter(|field: Seq<char>| field.len() > 0)
            },
        ),
{
    let core = marks + line;
    assert(core[0] == marks[0]);
    assert(core.last() == line.last());
    law_trimming_cuts_white_space_off(before, core, after);
    law_start_is_cut_off(marks, line, CharClass::ByteOrderMark);
    law_only_empty_pieces_are_left_out(pieces(line, CharClass::WhiteSpace));
    let fields = pieces(line, CharClass::Tab);
    assert(trimmed_all(fields) =~= fields.map_values(|field: Seq<char>| trimmed(field)));
}

/// Fields are an entry if the first of them is not empty: it is the word, the second the frequency
/// if it is a number, and the syllables of all the others are the pinyin.
pub proof fn law_fields_are_an_entry(word: Seq<char>, second: Seq<char>, others: Seq<Seq<char>>)
    ensures
        fields_entry(Seq::empty()) is None,
        word.len() == 0 ==> fields_entry(seq![word] + others) is None,
        word.len() > 0 ==> fields_entry(seq![word]) == Some(
            WordText { word, frequency: None, pinyin: None },
        ),
        word.len() > 0 ==> fields_entry(seq![word, second] + others) == Some(
            match number_value(second) {
                Some(number) => WordText {
                    word,
                    frequency: Some(number),
                    pinyin: typed_pinyin(typed_list(joined(others, seq!['\t']))),
                },
                None => WordText {
                    word,
                    frequency: None,
                    pinyin: typed_pinyin(typed_list(joined(seq![second] + others, seq!['\t']))),
                },
            },
        ),
{
    let alone = seq![word];
    assert(alone.skip(1) =~= Seq::empty());
    assert(syllables_in(Seq::<Seq<char>>::empty()) =~= Seq::empty());
    let some = seq![word] + others;
    assert(some[0] == word);
    let fields = seq![word, second] + others;
    assert(fields[0] == word && fields[1] == second);
    assert(fields.skip(2) =~= others);
    assert(fields.skip(1) =~= seq![second] + others);
    lemma_syllables_of_joined(others);
    lemma_syllables_of_joined(seq![second] + others);
}

/// The syllables in fields are those in the fields put together.
proof fn lemma_syllables_of_joined(fields: Seq<Seq<char>>)
    ensures
        syllables_in(fields) == typed_list(joined(fields, seq!['\t'])),
    decreases fields.len(),
{
    let gap = seq!['\t'];
    let class = CharClass::SyllableSeparator;
    law_only_empty_pieces_are_left_out(pieces(joined(fields, gap), class));
    if fields.len() == 0 {
        lemma_no_syllables_in_nothing(joined(fields, gap));
    } else {
        let before = fields.drop_last();
        let last = fields.last();
        lemma_syllables_of_joined(before);
        law_only_empty_pieces_are_left_out(pieces(last, class));
        if fields.len() == 1 {
            assert(before =~= Seq::empty());
            assert(syllables_in(before) =~= Seq::empty());
            assert(syllables_in(fields) =~= typed_list(last));
        } else {
            law_syllables_between_separators(joined(before, gap), '\t', last);
        }
    }
}

// The whole list

/// How many line feeds a text holds.
pub open spec fn line_feeds(s: Seq<char>) -> nat {
    s.filter(|c: char| c == '\n').len()
}

proof fn lemma_pieces_by_line_feeds(s: Seq<char>)
    ensures
        pieces(s, CharClass::LineFeed).len() == line_feeds(s) + 1,
    decreases s.len(),
{
    reveal(Seq::filter);
    if s.len() > 0 {
        lemma_pieces_by_line_feeds(s.drop_last());
    }
}

proof fn lemma_numbered_of_both(a: Seq<Seq<char>>, b: Seq<Seq<char>>)
    ensures
        numbered(a + b) == numbered(a) + numbered(b).map_values(
            |item: (nat, WordText)| (item.0 + a.len(), item.1),
        ),
    decreases b.len(),
{
    let later = |item: (nat, WordText)| (item.0 + a.len(), item.1);
    if b.len() == 0 {
        assert(a + b =~= a);
        assert(numbered(b) =~= Seq::empty());
        assert(numbered(a + b) =~= numbered(a) + numbered(b).map_values(later));
    } else {
        assert((a + b).drop_last() =~= a + b.drop_last());
        assert((a + b).last() == b.last());
        lemma_numbered_of_both(a, b.drop_last());
        assert(numbered(a + b) =~= numbered(a) + numbered(b).map_values(later));
    }
}

/// A list is read line by line: a single line gives its entry with the number one, and after a
/// line feed come the entries of the lines that follow, numbered on.
pub proof fn law_list_is_read_line_by_line(a: Seq<char>, b: Seq<char>)
    ensures
        !a.contains('\n') ==> numbered_entries(a) == match line_entry(a) {
            Some(entry) => seq![(1nat, entry)],
            None => Seq::empty(),
        },
        numbered_entries(a + seq!['\n'] + b) == numbered_entries(a) + numbered_entries(
            b,
        ).map_values(|item: (nat, WordText)| (item.0 + line_feeds(a) + 1, item.1)),
{
    let class = CharClass::LineFeed;
    if !a.contains('\n') {
        crate::round_trip::lemma_without_char(a, '\n', class);
        lemma_pieces_of_free(a, class);
        let lines = seq![a];
        assert(lines.drop_last() =~= Seq::empty());
        assert(numbered(Seq::<Seq<char>>::empty()) =~= Seq::empty());
        assert(numbered(lines) =~= match line_entry(a) {
            Some(entry) => seq![(1nat, entry)],
            None => Seq::empty(),
        });
    }
    lemma_pieces_around(a, '\n', b, class);
    lemma_numbered_of_both(pieces(a, class), pieces(b, class));
    lemma_pieces_by_line_feeds(a);
    let n = pieces(a, class).len();
    assert(numbered_entries(b).map_values(|item: (nat, WordText)| (item.0 + n, item.1))
        =~= numbered_entries(b).map_values(
        |item: (nat, WordText)| (item.0 + line_feeds(a) + 1, item.1),
    ));
}

/// The entries of a list are those of its lines, with each syllable in normal form; words and
/// frequencies stay.
pub proof fn law_entries_are_in_normal_form(input: Seq<char>, i: int)
    requires
        0 <= i < numbered_entries(input).len(),
    ensures
        word_entries(input).len() == numbered_entries(input).len(),
        word_entries(input)[i].word == numbered_entries(input)[i].1.word,
        word_entries(input)[i].frequency == numbered_entries(input)[i].1.frequency,
        word_entries(input)[i].pinyin == match numbered_entries(input)[i].1.pinyin {
            Some(list) => Some(list.map_values(|syllable: Seq<char>| normalized(syllable))),
            None => None,
        },
{
    if let Some(list) = numbered_entries(input)[i].1.pinyin {
        crate::laws::words::law_normal_forms_keep_places(list);
    }
}

/// No word occurs twice exactly if the words of the entries are all different; otherwise there is a
/// first entry whose word stands before it, and its line and word are named.
pub proof fn law_first_repeated_word_is_named(entries: Seq<(nat, WordText)>, i: int)
    ensures
        words_differ(entries) <==> entries.map_values(
            |item: (nat, WordText)| item.1.word,
        ).no_duplicates(),
        is_first_repeated(entries, i) <==> {
            &&& 0 <= i < entries.len()
            &&& entries.take(i).map_values(|item: (nat, WordText)| item.1.word).contains(
                entries[i].1.word,
            )
            &&& entries.take(i).map_values(|item: (nat, WordText)| item.1.word).no_duplicates()
        },
        0 <= i < entries.len() ==> repeated_message(entries[i].0, entries[i].1.word) == "第 "@
            + decimal(entries[i].0) + " 行出现重复词语“"@ + entries[i].1.word + "”"@,
{
    let word_of = |item: (nat, WordText)| item.1.word;
    let all = entries.map_values(word_of);
    if words_differ(entries) {
        assert forall|k: int, j: int|
            0 <= k < all.len() && 0 <= j < all.len() && k != j implies all[k] != all[j] by {
            assert(all[k] == entries[k].1.word);
            assert(all[j] == entries[j].1.word);
        }
    }
    if all.no_duplicates() {
        assert forall|k: int, j: int| 0 <= j < k < entries.len() implies (
        #[trigger] entries[j]).1.word != (#[trigger] entries[k]).1.word by {
            assert(all[k] != all[j]);
        }
    }
    if 0 <= i < entries.len() {
        let earlier = entries.take(i).map_values(word_of);
        if earlier.contains(entries[i].1.word) {
            let j = choose|j: int| 0 <= j < earlier.len() && earlier[j] == entries[i].1.word;
            assert(entries[j].1.word == entries[i].1.word);
            assert(is_repeated(entries, i));
        }
        if is_repeated(entries, i) {
            let j = choose|j: int|
                0 <= j < i && (#[trigger] entries[j]).1.word == entries[i].1.word;
            assert(earlier[j] == entries[i].1.word);
        }
        if earlier.no_duplicates() {
            assert forall|k: int| 0 <= k < i implies !#[trigger] is_repeated(entries, k) by {
                if is_repeated(entries, k) {
                    let j = choose|j: int|
                        0 <= j < k && (#[trigger] entries[j]).1.word == entries[k].1.word;
                    assert(earlier[j] == earlier[k]);
                }
            }
        }
        if forall|k: int| 0 <= k < i ==> !#[trigger] is_repeated(entries, k) {
            assert forall|k: int, j: int|
                0 <= k < earlier.len() && 0 <= j < earlier.len() && k != j implies earlier[k]
                != earlier[j] by {
                let (low, high) = if k < j {
                    (k, j)
                } else {
                    (j, k)
                };
                assert(earlier[low] == entries[low].1.word);
                assert(earlier[high] == entries[high].1.word);
                assert(!is_repeated(entries, high));
            }
        }
    }
}

} // verus!
