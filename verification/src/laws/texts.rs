//! What trimming, splitting, joining, ordering, searching and numbers come to.

use crate::round_trip::{is_free_of, lemma_pieces_around, lemma_pieces_of_free};
use crate::text::{
    all_digits, concatenated, decimal, digits_value, filled, is_digit, is_white_space, joined,
    number_value, occurs_in, pieces, precedes, trimmed, trimmed_end, trimmed_start, views,
    without_plus, CharClass,
};
use vstd::prelude::*;

verus! {

// Characters

/// What stands between two syllables is white space or one of six punctuation marks; a tone is a
/// digit up to five.
pub proof fn law_classes_of_characters(c: char)
    ensures
        CharClass::SyllableSeparator.has(c) <==> is_white_space(c) || seq![
            ',',
            '，',
            '/',
            '、',
            ';',
            '；',
        ].contains(c),
        CharClass::ToneDigit.has(c) <==> seq!['0', '1', '2', '3', '4', '5'].contains(c),
        CharClass::WhiteSpace.has(c) <==> is_white_space(c),
        CharClass::LineFeed.has(c) <==> c == '\u{a}',
        CharClass::Tab.has(c) <==> c == '\u{9}',
        CharClass::ByteOrderMark.has(c) <==> c == '\u{feff}',
{
    let marks = seq![',', '，', '/', '、', ';', '；'];
    assert(marks[0] == ',' && marks[1] == '，' && marks[2] == '/');
    assert(marks[3] == '、' && marks[4] == ';' && marks[5] == '；');
    let digits = seq!['0', '1', '2', '3', '4', '5'];
    assert(digits[0] == '0' && digits[1] == '1' && digits[2] == '2');
    assert(digits[3] == '3' && digits[4] == '4' && digits[5] == '5');
}

// Trimming

/// The leading characters of a class are cut off, however many they are, and nothing else.
pub proof fn law_start_is_cut_off(before: Seq<char>, core: Seq<char>, class: CharClass)
    requires
        forall|i: int| 0 <= i < before.len() ==> class.has(#[trigger] before[i]),
        core.len() > 0 ==> !class.has(core[0]),
    ensures
        trimmed_start(before + core, class) == core,
    decreases before.len(),
{
    let whole = before + core;
    if before.len() > 0 {
        assert(whole.first() == before[0]);
        assert(whole.drop_first() =~= before.drop_first() + core);
        law_start_is_cut_off(before.drop_first(), core, class);
    } else {
        assert(whole =~= core);
    }
}

/// The trailing characters of a class are cut off, however many they are, and nothing else.
pub proof fn law_end_is_cut_off(core: Seq<char>, after: Seq<char>, class: CharClass)
    requires
        forall|i: int| 0 <= i < after.len() ==> class.has(#[trigger] after[i]),
        core.len() > 0 ==> !class.has(core.last()),
    ensures
        trimmed_end(core + after, class) == core,
    decreases after.len(),
{
    let whole = core + after;
    if after.len() > 0 {
        assert(whole.last() == after[after.len() - 1]);
        assert(whole.drop_last() =~= core + after.drop_last());
        law_end_is_cut_off(core, after.drop_last(), class);
    } else {
        assert(whole =~= core);
    }
}

/// Trimming cuts off the white space on both sides, however much it is, and nothing else.
pub proof fn law_trimming_cuts_white_space_off(
    before: Seq<char>,
    core: Seq<char>,
    after: Seq<char>,
)
    requires
        forall|i: int| 0 <= i < before.len() ==> is_white_space(#[trigger] before[i]),
        forall|i: int| 0 <= i < after.len() ==> is_white_space(#[trigger] after[i]),
        core.len() > 0 ==> !is_white_space(core[0]) && !is_white_space(core.last()),
    ensures
        trimmed(before + core + after) == core,
{
    let class = CharClass::WhiteSpace;
    if core.len() > 0 {
        assert(before + core + after =~= before + (core + after));
        assert((core + after)[0] == core[0]);
        law_start_is_cut_off(before, core + after, class);
        law_end_is_cut_off(core, after, class);
    } else {
        let blank = before + after;
        assert(before + core + after =~= blank);
        assert forall|i: int| 0 <= i < blank.len() implies class.has(#[trigger] blank[i]) by {
            if i < before.len() {
                assert(blank[i] == before[i]);
            } else {
                assert(blank[i] == after[i - before.len()]);
            }
        }
        assert(blank + Seq::<char>::empty() =~= blank);
        law_start_is_cut_off(blank, Seq::empty(), class);
        assert(core =~= Seq::empty());
    }
}

// Splitting and joining

/// A list is seen item by item.
pub proof fn law_list_is_seen_item_by_item<T: View>(list: Seq<T>)
    ensures
        views(list) == list.map_values(|item: T| item@),
{
    assert(views(list) =~= list.map_values(|item: T| item@));
}

/// A text that holds nothing of a class is one piece, and each character of the class parts the
/// pieces before it from those after it.
pub proof fn law_pieces_are_parted(s: Seq<char>, c: char, t: Seq<char>, class: CharClass)
    requires
        class.has(c),
    ensures
        is_free_of(s, class) ==> pieces(s, class) == seq![s],
        pieces(s + seq![c] + t, class) == pieces(s, class) + pieces(t, class),
{
    if is_free_of(s, class) {
        lemma_pieces_of_free(s, class);
    }
    lemma_pieces_around(s, c, t, class);
}

/// Only empty pieces are left out.
pub proof fn law_only_empty_pieces_are_left_out(list: Seq<Seq<char>>)
    ensures
        filled(list) == list.filter(|piece: Seq<char>| piece.len() > 0),
    decreases list.len(),
{
    reveal(Seq::filter);
    if list.len() > 0 {
        law_only_empty_pieces_are_left_out(list.drop_last());
    }
}

/// Texts are joined with the separator between each two of them and nowhere else: two lists joined
/// one after the other are the lists together joined.
pub proof fn law_joined_lists(a: Seq<Seq<char>>, b: Seq<Seq<char>>, text: Seq<char>, separator: Seq<char>)
    ensures
        joined(Seq::empty(), separator) == Seq::<char>::empty(),
        joined(seq![text], separator) == text,
        a.len() > 0 && b.len() > 0 ==> joined(a + b, separator) == joined(a, separator) + separator
            + joined(b, separator),
    decreases b.len(),
{
    if a.len() > 0 && b.len() > 0 {
        assert((a + b).drop_last() =~= a + b.drop_last());
        assert((a + b).last() == b.last());
        if b.len() == 1 {
            assert(a + b.drop_last() =~= a);
            assert(joined(b, separator) == b.last());
        } else {
            law_joined_lists(a, b.drop_last(), text, separator);
            assert(joined(a + b, separator) =~= joined(a, separator) + separator + joined(
                b,
                separator,
            ));
        }
    }
}

/// Texts put after each other: nothing is added and nothing left out.
pub proof fn law_concatenated_lists(a: Seq<Seq<char>>, b: Seq<Seq<char>>, text: Seq<char>)
    ensures
        concatenated(Seq::empty()) == Seq::<char>::empty(),
        concatenated(seq![text]) == text,
        concatenated(a + b) == concatenated(a) + concatenated(b),
    decreases b.len(),
{
    assert(seq![text].drop_last() =~= Seq::empty());
    assert(concatenated(Seq::<Seq<char>>::empty()) =~= Seq::empty());
    assert(concatenated(seq![text]) =~= text);
    if b.len() > 0 {
        assert((a + b).drop_last() =~= a + b.drop_last());
        assert((a + b).last() == b.last());
        law_concatenated_lists(a, b.drop_last(), text);
        assert(concatenated(a + b) =~= concatenated(a) + concatenated(b));
    } else {
        assert(a + b =~= a);
        assert(concatenated(a + b) =~= concatenated(a) + concatenated(b));
    }
}

// Order and search

/// Of two texts that begin alike, the one with the smaller character at the first difference comes
/// first, and a beginning comes before what is longer.
pub proof fn law_order_is_by_the_first_difference(
    same: Seq<char>,
    c: char,
    d: char,
    s: Seq<char>,
    t: Seq<char>,
)
    ensures
        c != d ==> (precedes(same + seq![c] + s, same + seq![d] + t) <==> c < d),
        precedes(same, same + seq![d] + t),
        !precedes(same + seq![d] + t, same),
        !precedes(same, same),
    decreases same.len(),
{
    let a = same + seq![c] + s;
    let b = same + seq![d] + t;
    if same.len() == 0 {
        assert(a.first() == c);
        assert(b.first() == d);
    } else {
        law_order_is_by_the_first_difference(same.drop_first(), c, d, s, t);
        assert(a.drop_first() =~= same.drop_first() + seq![c] + s);
        assert(b.drop_first() =~= same.drop_first() + seq![d] + t);
        assert(a.first() == same.first());
        assert(b.first() == same.first());
    }
}

/// A text is found in another exactly where the other is something, the text, and something.
pub proof fn law_found_text_stands_between(part: Seq<char>, whole: Seq<char>)
    ensures
        occurs_in(part, whole) <==> exists|before: Seq<char>, after: Seq<char>|
            whole == #[trigger] (before + part + after),
{
    if occurs_in(part, whole) {
        let (i, j) = choose|i: int, j: int|
            0 <= i <= j <= whole.len() && part == #[trigger] whole.subrange(i, j);
        assert(whole =~= whole.take(i) + part + whole.skip(j));
    }
    if exists|before: Seq<char>, after: Seq<char>| whole == #[trigger] (before + part + after) {
        let (before, after) = choose|before: Seq<char>, after: Seq<char>|
            whole == #[trigger] (before + part + after);
        let i = before.len() as int;
        assert(part =~= whole.subrange(i, i + part.len()));
    }
}

// Numbers

/// A digit is its number; one more digit makes ten times the number and that digit, as long as the
/// number fits; a plus sign changes nothing.
pub proof fn law_number_by_digits(digits: Seq<char>, digit: char)
    requires
        '0' <= digit <= '9',
        digits.len() > 0,
        forall|i: int| 0 <= i < digits.len() ==> '0' <= #[trigger] digits[i] <= '9',
    ensures
        number_value(seq![digit]) == Some((digit as int - 48) as u64),
        match number_value(digits) {
            Some(number) => {
                let longer = number * 10 + (digit as int - 48);
                number_value(digits.push(digit)) == if longer <= u64::MAX {
                    Some(longer as u64)
                } else {
                    None::<u64>
                }
            },
            None => number_value(digits.push(digit)) is None,
        },
        number_value(seq!['+'] + digits) == number_value(digits),
{
    let one = seq![digit];
    assert(one.drop_last() =~= Seq::empty());
    assert(digits_value(Seq::<char>::empty()) == 0);
    assert(without_plus(one) == one);
    assert(all_digits(one));
    let longer = digits.push(digit);
    assert(longer[0] == digits[0]);
    assert(without_plus(longer) == longer);
    assert(without_plus(digits) == digits);
    assert(longer.drop_last() =~= digits);
    assert(all_digits(digits));
    assert(all_digits(longer));
    assert(without_plus(seq!['+'] + digits) =~= digits);
}

/// Only digits after at most one plus sign are a number.
pub proof fn law_other_text_is_no_number(s: Seq<char>, i: int)
    requires
        s.len() == 0 || s == seq!['+'] || (0 <= i < s.len() && !('0' <= s[i] <= '9') && (i > 0
            || s[0] != '+')),
    ensures
        number_value(s) is None,
{
    let digits = without_plus(s);
    if s.len() > 1 && s[0] == '+' {
        assert(digits[i - 1] == s[i]);
        assert(!is_digit(digits[i - 1]));
    } else if s.len() > 0 && s[0] != '+' {
        assert(!is_digit(digits[i]));
    }
}

/// A number is written with its digits, the last one last, and without leading zeros.
pub proof fn law_digits_of_a_number(number: nat, digit: nat)
    requires
        digit < 10,
    ensures
        decimal(digit) == seq![(48 + digit) as char],
        number > 0 ==> decimal(number * 10 + digit) == decimal(number) + decimal(digit),
{
    if number > 0 {
        assert((number * 10 + digit) / 10 == number);
        assert((number * 10 + digit) % 10 == digit);
        assert(decimal(number * 10 + digit) =~= decimal(number) + decimal(digit));
    }
}

} // verus!
