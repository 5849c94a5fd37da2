//! Spellings that do not matter: tone digits, letter case, white space and the ways to write `ü`.

use crate::error::value_of;
use crate::foreign::{is_plain, lower_char, lower_piece, lower_pieces};
use crate::syllable::{
    cleaned, code_of, first_key, is_letterwise, letterwise_normalized, normalized, syllable_code,
    umlauts_as_v,
};
use crate::text::{is_white_space, trimmed, trimmed_end, trimmed_start, CharClass};
use vstd::prelude::*;

verus! {

/// Whether two syllables have the same code, or both none, and the same normal form by the lower
/// case of their characters.
pub open spec fn spells_the_same(a: Seq<char>, b: Seq<char>) -> bool {
    &&& code_of(a) == code_of(b)
    &&& is_letterwise(a) == is_letterwise(b)
    &&& letterwise_normalized(a) == letterwise_normalized(b)
}

/// The code and the first key of a syllable are those of its normal form; how it was typed shows
/// in errors alone.
pub proof fn law_code_is_that_of_the_normal_form(a: Seq<char>, b: Seq<char>, syllable: Seq<char>)
    ensures
        value_of(syllable_code(a, syllable)) == value_of(syllable_code(b, syllable)),
        value_of(first_key(a, syllable)) == value_of(first_key(b, syllable)),
{
}

// White space

/// Whether a text is white space alone.
pub open spec fn is_blank(s: Seq<char>) -> bool {
    forall|i: int| 0 <= i < s.len() ==> is_white_space(#[trigger] s[i])
}

proof fn lemma_trimmed_start_of_longer(s: Seq<char>, c: char)
    ensures
        trimmed_start(s.push(c), CharClass::WhiteSpace) == (if trimmed_start(
            s,
            CharClass::WhiteSpace,
        ).len() == 0 && is_white_space(c) {
            Seq::empty()
        } else {
            trimmed_start(s, CharClass::WhiteSpace).push(c)
        }),
    decreases s.len(),
{
    let class = CharClass::WhiteSpace;
    if s.len() == 0 {
        assert(s.push(c).drop_first() =~= Seq::empty());
        assert(s =~= Seq::empty());
        assert(trimmed_start(Seq::<char>::empty(), class) =~= Seq::empty());
    } else if is_white_space(s.first()) {
        assert(s.push(c).drop_first() =~= s.drop_first().push(c));
        lemma_trimmed_start_of_longer(s.drop_first(), c);
    }
}

proof fn lemma_trimmed_after_white_space(a: Seq<char>, s: Seq<char>)
    requires
        is_blank(a),
    ensures
        trimmed(a + s) == trimmed(s),
    decreases a.len(),
{
    if a.len() == 0 {
        assert(a + s =~= s);
    } else {
        let rest = a.drop_first();
        assert forall|i: int| 0 <= i < rest.len() implies is_white_space(#[trigger] rest[i]) by {
            assert(rest[i] == a[i + 1]);
        }
        assert(is_white_space(a[0]));
        assert((a + s).drop_first() =~= rest + s);
        lemma_trimmed_after_white_space(rest, s);
    }
}

proof fn lemma_trimmed_before_white_space(s: Seq<char>, b: Seq<char>)
    requires
        is_blank(b),
    ensures
        trimmed(s + b) == trimmed(s),
    decreases b.len(),
{
    let class = CharClass::WhiteSpace;
    if b.len() == 0 {
        assert(s + b =~= s);
    } else {
        let shorter = b.drop_last();
        assert forall|i: int| 0 <= i < shorter.len() implies is_white_space(
            #[trigger] shorter[i],
        ) by {
            assert(shorter[i] == b[i]);
        }
        lemma_trimmed_before_white_space(s, shorter);
        let c = b[b.len() - 1];
        let before = s + shorter;
        assert(is_white_space(c));
        assert(s + b =~= before.push(c));
        lemma_trimmed_start_of_longer(before, c);
        let rest = trimmed_start(before, class);
        if rest.len() > 0 {
            assert(rest.push(c).drop_last() =~= rest);
        } else {
            assert(rest =~= Seq::empty());
        }
    }
}

/// White space around a syllable does not matter, whatever the syllable is typed with.
pub proof fn law_white_space_around_does_not_matter(a: Seq<char>, s: Seq<char>, b: Seq<char>)
    requires
        is_blank(a),
        is_blank(b),
    ensures
        normalized(a + s + b) == normalized(s),
        spells_the_same(a + s + b, s),
{
    lemma_trimmed_before_white_space(a + s, b);
    lemma_trimmed_after_white_space(a, s);
    law_code_is_that_of_the_normal_form(a + s + b, s, letterwise_normalized(s));
}

// Tones

proof fn lemma_umlauts_before_digit(s: Seq<char>, d: char)
    requires
        CharClass::ToneDigit.has(d),
    ensures
        umlauts_as_v(s.push(d)) == umlauts_as_v(s).push(d),
    decreases s.len(),
{
    let longer = s.push(d);
    if s.len() == 0 {
        assert(longer.skip(1) =~= Seq::empty());
        assert(s =~= Seq::empty());
        assert(umlauts_as_v(Seq::<char>::empty()) =~= Seq::empty());
        assert(umlauts_as_v(longer) =~= seq![d]);
        assert(umlauts_as_v(s).push(d) =~= seq![d]);
    } else if s.len() >= 2 && s[0] == 'u' && s[1] == ':' {
        assert(longer.skip(2) =~= s.skip(2).push(d));
        lemma_umlauts_before_digit(s.skip(2), d);
        assert(umlauts_as_v(longer) =~= umlauts_as_v(s).push(d));
    } else {
        assert(longer.skip(1) =~= s.skip(1).push(d));
        lemma_umlauts_before_digit(s.skip(1), d);
        assert(longer[0] == s[0]);
        assert(longer[1] == (if s.len() >= 2 {
            s[1]
        } else {
            d
        }));
        assert(umlauts_as_v(longer) =~= umlauts_as_v(s).push(d));
    }
}

proof fn lemma_lower_pieces_of_longer(s: Seq<char>, c: char)
    ensures
        lower_pieces(s.push(c)) == lower_pieces(s) + lower_piece(c),
    decreases s.len(),
{
    let longer = s.push(c);
    if s.len() == 0 {
        assert(longer.skip(1) =~= Seq::empty());
        assert(lower_pieces(Seq::<char>::empty()) =~= Seq::empty());
    } else {
        assert(longer.skip(1) =~= s.skip(1).push(c));
        assert(longer[0] == s[0]);
        lemma_lower_pieces_of_longer(s.skip(1), c);
    }
    assert(lower_pieces(longer) =~= lower_pieces(s) + lower_piece(c));
}

/// The digit of a tone at the end of a syllable does not matter.
pub proof fn law_tone_digit_does_not_matter(s: Seq<char>, d: char)
    requires
        s.len() == 0 || !is_white_space(s.last()),
        CharClass::ToneDigit.has(d),
    ensures
        spells_the_same(s.push(d), s),
{
    let class = CharClass::WhiteSpace;
    let rest = trimmed_start(s, class);
    lemma_trimmed_start_of_longer(s, d);
    assert(trimmed(s.push(d)) == rest.push(d));
    lemma_trimmed_start_keeps_end(s);
    assert(trimmed(s) == rest);
    lemma_lower_pieces_of_longer(rest, d);
    assert(lower_pieces(rest) + lower_piece(d) =~= lower_pieces(rest).push(d));
    lemma_umlauts_before_digit(lower_pieces(rest), d);
    let whole = umlauts_as_v(lower_pieces(rest));
    assert(whole.push(d).drop_last() =~= whole);
    assert(cleaned(lower_pieces(rest.push(d))) == cleaned(lower_pieces(rest)));
    assert(rest.push(d).contains('Σ') == rest.contains('Σ')) by {
        if rest.contains('Σ') {
            let k = choose|k: int| 0 <= k < rest.len() && rest[k] == 'Σ';
            assert(rest.push(d)[k] == 'Σ');
        }
        if rest.push(d).contains('Σ') {
            let k = choose|k: int| 0 <= k < rest.push(d).len() && rest.push(d)[k] == 'Σ';
            assert(rest[k] == 'Σ');
        }
    }
    law_code_is_that_of_the_normal_form(s.push(d), s, letterwise_normalized(s));
}

proof fn lemma_trimmed_start_keeps_end(s: Seq<char>)
    requires
        s.len() == 0 || !is_white_space(s.last()),
    ensures
        s.len() > 0 ==> trimmed_start(s, CharClass::WhiteSpace).len() > 0 && trimmed_start(
            s,
            CharClass::WhiteSpace,
        ).last() == s.last(),
    decreases s.len(),
{
    if s.len() > 0 && is_white_space(s.first()) {
        assert(s.drop_first().last() == s.last());
        lemma_trimmed_start_keeps_end(s.drop_first());
    }
}

// Letter case

/// Whether two characters are the same but for the case of a letter `a` to `z` or `ü`.
pub open spec fn same_letter(a: char, b: char) -> bool {
    a == b || (is_plain(a) && is_plain(b) && lower_char(a) == lower_char(b))
}

/// Whether two texts are the same but for the case of such letters.
pub open spec fn same_but_for_case(a: Seq<char>, b: Seq<char>) -> bool {
    a.len() == b.len() && forall|i: int| 0 <= i < a.len() ==> same_letter(#[trigger] a[i], b[i])
}

proof fn lemma_case_keeps_start(a: Seq<char>, b: Seq<char>)
    requires
        same_but_for_case(a, b),
    ensures
        same_but_for_case(
            trimmed_start(a, CharClass::WhiteSpace),
            trimmed_start(b, CharClass::WhiteSpace),
        ),
    decreases a.len(),
{
    if a.len() > 0 {
        assert(same_letter(a[0], b[0]));
        if is_white_space(a.first()) {
            let rest = a.drop_first();
            assert forall|i: int| 0 <= i < rest.len() implies same_letter(
                #[trigger] rest[i],
                b.drop_first()[i],
            ) by {
                assert(same_letter(a[i + 1], b[i + 1]));
            }
            lemma_case_keeps_start(rest, b.drop_first());
        }
    }
}

proof fn lemma_case_keeps_end(a: Seq<char>, b: Seq<char>)
    requires
        same_but_for_case(a, b),
    ensures
        same_but_for_case(
            trimmed_end(a, CharClass::WhiteSpace),
            trimmed_end(b, CharClass::WhiteSpace),
        ),
    decreases a.len(),
{
    if a.len() > 0 {
        assert(same_letter(a[a.len() - 1], b[b.len() - 1]));
        if is_white_space(a.last()) {
            let before = a.drop_last();
            assert forall|i: int| 0 <= i < before.len() implies same_letter(
                #[trigger] before[i],
                b.drop_last()[i],
            ) by {
                assert(same_letter(a[i], b[i]));
            }
            lemma_case_keeps_end(before, b.drop_last());
        }
    }
}

proof fn lemma_case_keeps_lower_pieces(a: Seq<char>, b: Seq<char>)
    requires
        same_but_for_case(a, b),
    ensures
        lower_pieces(a) == lower_pieces(b),
        a.contains('Σ') ==> b.contains('Σ'),
    decreases a.len(),
{
    if a.contains('Σ') {
        let k = choose|k: int| 0 <= k < a.len() && a[k] == 'Σ';
        assert(same_letter(a[k], b[k]));
        assert(b[k] == 'Σ');
    }
    if a.len() > 0 {
        let rest = a.skip(1);
        assert(same_letter(a[0], b[0]));
        assert forall|i: int| 0 <= i < rest.len() implies same_letter(
            #[trigger] rest[i],
            b.skip(1)[i],
        ) by {
            assert(same_letter(a[i + 1], b[i + 1]));
        }
        lemma_case_keeps_lower_pieces(rest, b.skip(1));
        assert(lower_piece(a[0]) =~= lower_piece(b[0]));
    }
}

/// The case of letters does not matter.
pub proof fn law_letter_case_does_not_matter(a: Seq<char>, b: Seq<char>)
    requires
        same_but_for_case(a, b),
    ensures
        spells_the_same(a, b),
{
    lemma_case_keeps_start(a, b);
    lemma_case_keeps_end(
        trimmed_start(a, CharClass::WhiteSpace),
        trimmed_start(b, CharClass::WhiteSpace),
    );
    lemma_case_keeps_lower_pieces(trimmed(a), trimmed(b));
    assert forall|i: int| 0 <= i < trimmed(b).len() implies same_letter(
        #[trigger] trimmed(b)[i],
        trimmed(a)[i],
    ) by {
        assert(same_letter(trimmed(a)[i], trimmed(b)[i]));
    }
    lemma_case_keeps_lower_pieces(trimmed(b), trimmed(a));
    law_code_is_that_of_the_normal_form(a, b, letterwise_normalized(b));
}

/// The capital of a small letter `a` to `z`; every other character as it is.
pub open spec fn capital_char(c: char) -> char {
    if 'a' <= c <= 'z' {
        (c as int - 32) as char
    } else {
        c
    }
}

/// A text with its small letters `a` to `z` as capitals.
pub open spec fn in_capitals(s: Seq<char>) -> Seq<char> {
    Seq::new(s.len(), |i: int| capital_char(s[i]))
}

/// A syllable in capitals has the code of the syllable in small letters.
pub proof fn law_capitals_do_not_matter(s: Seq<char>)
    ensures
        spells_the_same(in_capitals(s), s),
{
    law_letter_case_does_not_matter(in_capitals(s), s);
}

// Umlauts

/// A text with another spelling in place of each `ü`.
pub open spec fn with_umlauts_as(s: Seq<char>, umlaut: Seq<char>) -> Seq<char>
    decreases s.len(),
{
    if s.len() == 0 {
        Seq::empty()
    } else if s[0] == 'ü' {
        umlaut + with_umlauts_as(s.skip(1), umlaut)
    } else {
        seq![s[0]] + with_umlauts_as(s.skip(1), umlaut)
    }
}

/// Whether a text is a way to write `ü` with plain letters.
pub open spec fn is_umlaut_spelling(umlaut: Seq<char>) -> bool {
    umlaut == seq!['v'] || umlaut == seq!['u', ':']
}

proof fn lemma_spelled_longer(s: Seq<char>, c: char, umlaut: Seq<char>)
    ensures
        with_umlauts_as(s.push(c), umlaut) == with_umlauts_as(s, umlaut) + (if c == 'ü' {
            umlaut
        } else {
            seq![c]
        }),
    decreases s.len(),
{
    let longer = s.push(c);
    if s.len() == 0 {
        assert(longer.skip(1) =~= Seq::empty());
        assert(with_umlauts_as(Seq::<char>::empty(), umlaut) =~= Seq::empty());
        assert(with_umlauts_as(longer, umlaut) =~= with_umlauts_as(s, umlaut) + (if c == 'ü' {
            umlaut
        } else {
            seq![c]
        }));
    } else {
        assert(longer.skip(1) =~= s.skip(1).push(c));
        assert(longer[0] == s[0]);
        lemma_spelled_longer(s.skip(1), c, umlaut);
        assert(with_umlauts_as(longer, umlaut) =~= with_umlauts_as(s, umlaut) + (if c == 'ü' {
            umlaut
        } else {
            seq![c]
        }));
    }
}

proof fn lemma_spelled_start(s: Seq<char>, umlaut: Seq<char>)
    requires
        is_umlaut_spelling(umlaut),
    ensures
        trimmed_start(with_umlauts_as(s, umlaut), CharClass::WhiteSpace) == with_umlauts_as(
            trimmed_start(s, CharClass::WhiteSpace),
            umlaut,
        ),
    decreases s.len(),
{
    if s.len() > 0 {
        let spelled = with_umlauts_as(s, umlaut);
        if is_white_space(s.first()) {
            assert(s.drop_first() =~= s.skip(1));
            assert(spelled.drop_first() =~= with_umlauts_as(s.skip(1), umlaut));
            lemma_spelled_start(s.drop_first(), umlaut);
        } else {
            assert(!is_white_space(spelled.first()));
        }
    }
}

proof fn lemma_spelled_end(s: Seq<char>, umlaut: Seq<char>)
    requires
        is_umlaut_spelling(umlaut),
    ensures
        trimmed_end(with_umlauts_as(s, umlaut), CharClass::WhiteSpace) == with_umlauts_as(
            trimmed_end(s, CharClass::WhiteSpace),
            umlaut,
        ),
    decreases s.len(),
{
    if s.len() > 0 {
        let spelled = with_umlauts_as(s, umlaut);
        let before = s.drop_last();
        assert(before.push(s.last()) =~= s);
        lemma_spelled_longer(before, s.last(), umlaut);
        if is_white_space(s.last()) {
            assert(spelled.drop_last() =~= with_umlauts_as(before, umlaut));
            lemma_spelled_end(before, umlaut);
        } else {
            assert(!is_white_space(spelled.last()));
        }
    }
}

proof fn lemma_spelled_keeps_others(s: Seq<char>, umlaut: Seq<char>, c: char)
    requires
        is_umlaut_spelling(umlaut),
        c != 'ü',
        c != 'u',
        c != ':',
        c != 'v',
    ensures
        with_umlauts_as(s, umlaut).contains(c) == s.contains(c),
    decreases s.len(),
{
    if s.len() > 0 {
        let rest = s.skip(1);
        let spelled_rest = with_umlauts_as(rest, umlaut);
        let spelled = with_umlauts_as(s, umlaut);
        let head = if s[0] == 'ü' {
            umlaut
        } else {
            seq![s[0]]
        };
        lemma_spelled_keeps_others(rest, umlaut, c);
        assert(spelled == head + spelled_rest);
        if s.contains(c) {
            let k = choose|k: int| 0 <= k < s.len() && s[k] == c;
            if k == 0 {
                assert(spelled[0] == c);
            } else {
                assert(rest[k - 1] == c);
                let i = choose|i: int| 0 <= i < spelled_rest.len() && spelled_rest[i] == c;
                assert(spelled[head.len() + i] == c);
            }
        }
        if spelled.contains(c) {
            let k = choose|k: int| 0 <= k < spelled.len() && spelled[k] == c;
            if k < head.len() {
                assert(s[0] == c);
            } else {
                assert(spelled_rest[k - head.len()] == c);
                let i = choose|i: int| 0 <= i < rest.len() && rest[i] == c;
                assert(s[i + 1] == c);
            }
        }
    }
}

spec fn starts_with_colon(s: Seq<char>) -> bool {
    s.len() > 0 && s[0] == ':'
}

/// Whether two texts become the same when their umlauts are written as `v`, whatever stands
/// before them.
spec fn same_umlauts(a: Seq<char>, b: Seq<char>) -> bool {
    &&& umlauts_as_v(a) == umlauts_as_v(b)
    &&& starts_with_colon(a) == starts_with_colon(b)
    &&& starts_with_colon(a) ==> umlauts_as_v(a.skip(1)) == umlauts_as_v(b.skip(1))
}

proof fn lemma_same_umlauts_after(head: Seq<char>, a: Seq<char>, b: Seq<char>)
    requires
        same_umlauts(a, b),
    ensures
        umlauts_as_v(head + a) == umlauts_as_v(head + b),
    decreases head.len(),
{
    let x = head + a;
    let y = head + b;
    if head.len() == 0 {
        assert(x =~= a && y =~= b);
    } else if head.len() >= 2 && head[0] == 'u' && head[1] == ':' {
        assert(x.skip(2) =~= head.skip(2) + a);
        assert(y.skip(2) =~= head.skip(2) + b);
        lemma_same_umlauts_after(head.skip(2), a, b);
    } else if head.len() == 1 && head[0] == 'u' && starts_with_colon(a) {
        assert(x[1] == ':' && y[1] == ':');
        assert(x.skip(2) =~= a.skip(1));
        assert(y.skip(2) =~= b.skip(1));
    } else {
        assert(x.skip(1) =~= head.skip(1) + a);
        assert(y.skip(1) =~= head.skip(1) + b);
        lemma_same_umlauts_after(head.skip(1), a, b);
        assert(x[0] == head[0] && y[0] == head[0]);
        if head.len() >= 2 {
            assert(x[1] == head[1] && y[1] == head[1]);
        } else {
            assert(x.len() >= 2 ==> x[1] == a[0]);
            assert(y.len() >= 2 ==> y[1] == b[0]);
        }
    }
}

proof fn lemma_same_umlauts_extend(head: Seq<char>, a: Seq<char>, b: Seq<char>)
    requires
        same_umlauts(a, b),
    ensures
        same_umlauts(head + a, head + b),
{
    lemma_same_umlauts_after(head, a, b);
    if head.len() == 0 {
        assert(head + a =~= a && head + b =~= b);
    } else {
        lemma_same_umlauts_after(head.skip(1), a, b);
        assert((head + a).skip(1) =~= head.skip(1) + a);
        assert((head + b).skip(1) =~= head.skip(1) + b);
    }
}

proof fn lemma_spelled_umlauts(s: Seq<char>, umlaut: Seq<char>)
    requires
        is_umlaut_spelling(umlaut),
    ensures
        same_umlauts(lower_pieces(with_umlauts_as(s, umlaut)), lower_pieces(s)),
    decreases s.len(),
{
    if s.len() > 0 {
        let rest = s.skip(1);
        let spelled_rest = with_umlauts_as(rest, umlaut);
        let spelled = with_umlauts_as(s, umlaut);
        let low = lower_pieces(rest);
        let low_spelled = lower_pieces(spelled_rest);
        lemma_spelled_umlauts(rest, umlaut);
        if s[0] == 'ü' {
            let x = umlaut + low_spelled;
            let y = seq!['ü'] + low;
            assert(lower_pieces(s) =~= y);
            assert(lower_pieces(spelled) =~= x) by {
                if umlaut == seq!['v'] {
                    assert(spelled.skip(1) =~= spelled_rest);
                } else {
                    let after = seq![':'] + spelled_rest;
                    assert(spelled.skip(1) =~= after);
                    assert(after.skip(1) =~= spelled_rest);
                    assert(lower_pieces(after) =~= seq![':'] + low_spelled);
                    assert(lower_pieces(spelled) =~= seq!['u'] + lower_pieces(after));
                }
            }
            assert(y.skip(1) =~= low);
            assert(x.skip(umlaut.len() as int) =~= low_spelled);
            assert(umlauts_as_v(x) == seq!['v'] + umlauts_as_v(low_spelled));
            assert(umlauts_as_v(y) == seq!['v'] + umlauts_as_v(low));
        } else {
            assert(spelled.skip(1) =~= spelled_rest);
            assert(spelled[0] == s[0]);
            lemma_same_umlauts_extend(lower_piece(s[0]), low_spelled, low);
        }
    }
}

/// It does not matter whether an umlaut is written `ü`, `v` or `u:`.
pub proof fn law_umlaut_spelling_does_not_matter(s: Seq<char>, umlaut: Seq<char>)
    requires
        is_umlaut_spelling(umlaut),
    ensures
        spells_the_same(with_umlauts_as(s, umlaut), s),
{
    let spelled = with_umlauts_as(s, umlaut);
    lemma_spelled_start(s, umlaut);
    lemma_spelled_end(trimmed_start(s, CharClass::WhiteSpace), umlaut);
    lemma_spelled_umlauts(trimmed(s), umlaut);
    lemma_spelled_keeps_others(trimmed(s), umlaut, 'Σ');
    law_code_is_that_of_the_normal_form(spelled, s, letterwise_normalized(s));
}

} // verus!
