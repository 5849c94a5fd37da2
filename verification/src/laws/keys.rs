//! Codes of syllables on the Xiaohe keyboard.

use crate::error::value_of;
use crate::foreign::{lower_piece, lower_pieces};
use crate::laws::texts::{law_end_is_cut_off, law_trimming_cuts_white_space_off};
use crate::syllable::{
    code_of, code_without_initial, first_key, initial_and_final, is_initial_letter, is_letterwise,
    key_of_final, letterwise_normalized, syllable_code, umlauts_as_v,
};
use crate::text::{is_white_space, CharClass};
use vstd::prelude::*;

verus! {

// The Xiaohe keyboard

/// Whether `head` is an initial that is typed with the key `key`.
pub open spec fn is_typed_with(head: Seq<char>, key: char) -> bool {
    ||| head == seq!['z', 'h'] && key == 'v'
    ||| head == seq!['c', 'h'] && key == 'i'
    ||| head == seq!['s', 'h'] && key == 'u'
    ||| head == seq![key] && seq![
        'b', 'p', 'm', 'f', 'd', 't', 'n', 'l', 'g', 'k', 'h', 'j', 'q', 'x', 'r', 'z', 'c', 's',
        'y', 'w',
    ].contains(key)
}

/// Whether what follows an initial does not make it another: `h` does after `z`, `c` and `s`.
pub open spec fn can_follow(head: Seq<char>, part: Seq<char>) -> bool {
    !((head == seq!['z'] || head == seq!['c'] || head == seq!['s']) && part.len() > 0 && part[0]
        == 'h')
}

proof fn lemma_initials(key: char)
    ensures
        seq![
            'b', 'p', 'm', 'f', 'd', 't', 'n', 'l', 'g', 'k', 'h', 'j', 'q', 'x', 'r', 'z', 'c',
            's', 'y', 'w',
        ].contains(key) <==> is_initial_letter(key),
{
    let letters = seq![
        'b', 'p', 'm', 'f', 'd', 't', 'n', 'l', 'g', 'k', 'h', 'j', 'q', 'x', 'r', 'z', 'c', 's',
        'y', 'w',
    ];
    assert(letters.len() == 20);
    assert(letters[0] == 'b');
    assert(letters[1] == 'p');
    assert(letters[2] == 'm');
    assert(letters[3] == 'f');
    assert(letters[4] == 'd');
    assert(letters[5] == 't');
    assert(letters[6] == 'n');
    assert(letters[7] == 'l');
    assert(letters[8] == 'g');
    assert(letters[9] == 'k');
    assert(letters[10] == 'h');
    assert(letters[11] == 'j');
    assert(letters[12] == 'q');
    assert(letters[13] == 'x');
    assert(letters[14] == 'r');
    assert(letters[15] == 'z');
    assert(letters[16] == 'c');
    assert(letters[17] == 's');
    assert(letters[18] == 'y');
    assert(letters[19] == 'w');
}

/// When a text is a given final, letter by letter.
proof fn lemma_letters_of_finals(part: Seq<char>)
    ensures
        part == "a"@ <==> (part.len() == 1 && part[0] == 'a'),
        part == "o"@ <==> (part.len() == 1 && part[0] == 'o'),
        part == "uo"@ <==> (part.len() == 2 && part[0] == 'u' && part[1] == 'o'),
        part == "e"@ <==> (part.len() == 1 && part[0] == 'e'),
        part == "i"@ <==> (part.len() == 1 && part[0] == 'i'),
        part == "u"@ <==> (part.len() == 1 && part[0] == 'u'),
        part == "v"@ <==> (part.len() == 1 && part[0] == 'v'),
        part == "ü"@ <==> (part.len() == 1 && part[0] == 'ü'),
        part == "ui"@ <==> (part.len() == 2 && part[0] == 'u' && part[1] == 'i'),
        part == "uei"@ <==> (part.len() == 3 && part[0] == 'u' && part[1] == 'e' && part[2] == 'i'),
        part == "ai"@ <==> (part.len() == 2 && part[0] == 'a' && part[1] == 'i'),
        part == "ei"@ <==> (part.len() == 2 && part[0] == 'e' && part[1] == 'i'),
        part == "ao"@ <==> (part.len() == 2 && part[0] == 'a' && part[1] == 'o'),
        part == "ou"@ <==> (part.len() == 2 && part[0] == 'o' && part[1] == 'u'),
        part == "iu"@ <==> (part.len() == 2 && part[0] == 'i' && part[1] == 'u'),
        part == "iou"@ <==> (part.len() == 3 && part[0] == 'i' && part[1] == 'o' && part[2] == 'u'),
        part == "ie"@ <==> (part.len() == 2 && part[0] == 'i' && part[1] == 'e'),
        part == "ue"@ <==> (part.len() == 2 && part[0] == 'u' && part[1] == 'e'),
        part == "ve"@ <==> (part.len() == 2 && part[0] == 'v' && part[1] == 'e'),
        part == "üe"@ <==> (part.len() == 2 && part[0] == 'ü' && part[1] == 'e'),
        part == "er"@ <==> (part.len() == 2 && part[0] == 'e' && part[1] == 'r'),
        part == "uan"@ <==> (part.len() == 3 && part[0] == 'u' && part[1] == 'a' && part[2] == 'n'),
        part == "an"@ <==> (part.len() == 2 && part[0] == 'a' && part[1] == 'n'),
        part == "en"@ <==> (part.len() == 2 && part[0] == 'e' && part[1] == 'n'),
        part == "in"@ <==> (part.len() == 2 && part[0] == 'i' && part[1] == 'n'),
        part == "un"@ <==> (part.len() == 2 && part[0] == 'u' && part[1] == 'n'),
        part == "vn"@ <==> (part.len() == 2 && part[0] == 'v' && part[1] == 'n'),
        part == "uen"@ <==> (part.len() == 3 && part[0] == 'u' && part[1] == 'e' && part[2] == 'n'),
        part == "ang"@ <==> (part.len() == 3 && part[0] == 'a' && part[1] == 'n' && part[2] == 'g'),
        part == "eng"@ <==> (part.len() == 3 && part[0] == 'e' && part[1] == 'n' && part[2] == 'g'),
        part == "ing"@ <==> (part.len() == 3 && part[0] == 'i' && part[1] == 'n' && part[2] == 'g'),
        part == "uai"@ <==> (part.len() == 3 && part[0] == 'u' && part[1] == 'a' && part[2] == 'i'),
        part == "ong"@ <==> (part.len() == 3 && part[0] == 'o' && part[1] == 'n' && part[2] == 'g'),
        part == "iong"@ <==> (part.len() == 4 && part[0] == 'i' && part[1] == 'o' && part[2] == 'n' && part[3] == 'g'),
        part == "ia"@ <==> (part.len() == 2 && part[0] == 'i' && part[1] == 'a'),
        part == "ua"@ <==> (part.len() == 2 && part[0] == 'u' && part[1] == 'a'),
        part == "ian"@ <==> (part.len() == 3 && part[0] == 'i' && part[1] == 'a' && part[2] == 'n'),
        part == "iang"@ <==> (part.len() == 4 && part[0] == 'i' && part[1] == 'a' && part[2] == 'n' && part[3] == 'g'),
        part == "uang"@ <==> (part.len() == 4 && part[0] == 'u' && part[1] == 'a' && part[2] == 'n' && part[3] == 'g'),
        part == "iao"@ <==> (part.len() == 3 && part[0] == 'i' && part[1] == 'a' && part[2] == 'o'),
{
    reveal_strlit("a");
    reveal_strlit("o");
    reveal_strlit("uo");
    reveal_strlit("e");
    reveal_strlit("i");
    reveal_strlit("u");
    reveal_strlit("v");
    reveal_strlit("ü");
    reveal_strlit("ui");
    reveal_strlit("uei");
    reveal_strlit("ai");
    reveal_strlit("ei");
    reveal_strlit("ao");
    reveal_strlit("ou");
    reveal_strlit("iu");
    reveal_strlit("iou");
    reveal_strlit("ie");
    reveal_strlit("ue");
    reveal_strlit("ve");
    reveal_strlit("üe");
    reveal_strlit("er");
    reveal_strlit("uan");
    reveal_strlit("an");
    reveal_strlit("en");
    reveal_strlit("in");
    reveal_strlit("un");
    reveal_strlit("vn");
    reveal_strlit("uen");
    reveal_strlit("ang");
    reveal_strlit("eng");
    reveal_strlit("ing");
    reveal_strlit("uai");
    reveal_strlit("ong");
    reveal_strlit("iong");
    reveal_strlit("ia");
    reveal_strlit("ua");
    reveal_strlit("ian");
    reveal_strlit("iang");
    reveal_strlit("uang");
    reveal_strlit("iao");
    if (part.len() == 1 && part[0] == 'a') {
        assert(part =~= "a"@);
    }
    if (part.len() == 1 && part[0] == 'o') {
        assert(part =~= "o"@);
    }
    if (part.len() == 2 && part[0] == 'u' && part[1] == 'o') {
        assert(part =~= "uo"@);
    }
    if (part.len() == 1 && part[0] == 'e') {
        assert(part =~= "e"@);
    }
    if (part.len() == 1 && part[0] == 'i') {
        assert(part =~= "i"@);
    }
    if (part.len() == 1 && part[0] == 'u') {
        assert(part =~= "u"@);
    }
    if (part.len() == 1 && part[0] == 'v') {
        assert(part =~= "v"@);
    }
    if (part.len() == 1 && part[0] == 'ü') {
        assert(part =~= "ü"@);
    }
    if (part.len() == 2 && part[0] == 'u' && part[1] == 'i') {
        assert(part =~= "ui"@);
    }
    if (part.len() == 3 && part[0] == 'u' && part[1] == 'e' && part[2] == 'i') {
        assert(part =~= "uei"@);
    }
    if (part.len() == 2 && part[0] == 'a' && part[1] == 'i') {
        assert(part =~= "ai"@);
    }
    if (part.len() == 2 && part[0] == 'e' && part[1] == 'i') {
        assert(part =~= "ei"@);
    }
    if (part.len() == 2 && part[0] == 'a' && part[1] == 'o') {
        assert(part =~= "ao"@);
    }
    if (part.len() == 2 && part[0] == 'o' && part[1] == 'u') {
        assert(part =~= "ou"@);
    }
    if (part.len() == 2 && part[0] == 'i' && part[1] == 'u') {
        assert(part =~= "iu"@);
    }
    if (part.len() == 3 && part[0] == 'i' && part[1] == 'o' && part[2] == 'u') {
        assert(part =~= "iou"@);
    }
    if (part.len() == 2 && part[0] == 'i' && part[1] == 'e') {
        assert(part =~= "ie"@);
    }
    if (part.len() == 2 && part[0] == 'u' && part[1] == 'e') {
        assert(part =~= "ue"@);
    }
    if (part.len() == 2 && part[0] == 'v' && part[1] == 'e') {
        assert(part =~= "ve"@);
    }
    if (part.len() == 2 && part[0] == 'ü' && part[1] == 'e') {
        assert(part =~= "üe"@);
    }
    if (part.len() == 2 && part[0] == 'e' && part[1] == 'r') {
        assert(part =~= "er"@);
    }
    if (part.len() == 3 && part[0] == 'u' && part[1] == 'a' && part[2] == 'n') {
        assert(part =~= "uan"@);
    }
    if (part.len() == 2 && part[0] == 'a' && part[1] == 'n') {
        assert(part =~= "an"@);
    }
    if (part.len() == 2 && part[0] == 'e' && part[1] == 'n') {
        assert(part =~= "en"@);
    }
    if (part.len() == 2 && part[0] == 'i' && part[1] == 'n') {
        assert(part =~= "in"@);
    }
    if (part.len() == 2 && part[0] == 'u' && part[1] == 'n') {
        assert(part =~= "un"@);
    }
    if (part.len() == 2 && part[0] == 'v' && part[1] == 'n') {
        assert(part =~= "vn"@);
    }
    if (part.len() == 3 && part[0] == 'u' && part[1] == 'e' && part[2] == 'n') {
        assert(part =~= "uen"@);
    }
    if (part.len() == 3 && part[0] == 'a' && part[1] == 'n' && part[2] == 'g') {
        assert(part =~= "ang"@);
    }
    if (part.len() == 3 && part[0] == 'e' && part[1] == 'n' && part[2] == 'g') {
        assert(part =~= "eng"@);
    }
    if (part.len() == 3 && part[0] == 'i' && part[1] == 'n' && part[2] == 'g') {
        assert(part =~= "ing"@);
    }
    if (part.len() == 3 && part[0] == 'u' && part[1] == 'a' && part[2] == 'i') {
        assert(part =~= "uai"@);
    }
    if (part.len() == 3 && part[0] == 'o' && part[1] == 'n' && part[2] == 'g') {
        assert(part =~= "ong"@);
    }
    if (part.len() == 4 && part[0] == 'i' && part[1] == 'o' && part[2] == 'n' && part[3] == 'g') {
        assert(part =~= "iong"@);
    }
    if (part.len() == 2 && part[0] == 'i' && part[1] == 'a') {
        assert(part =~= "ia"@);
    }
    if (part.len() == 2 && part[0] == 'u' && part[1] == 'a') {
        assert(part =~= "ua"@);
    }
    if (part.len() == 3 && part[0] == 'i' && part[1] == 'a' && part[2] == 'n') {
        assert(part =~= "ian"@);
    }
    if (part.len() == 4 && part[0] == 'i' && part[1] == 'a' && part[2] == 'n' && part[3] == 'g') {
        assert(part =~= "iang"@);
    }
    if (part.len() == 4 && part[0] == 'u' && part[1] == 'a' && part[2] == 'n' && part[3] == 'g') {
        assert(part =~= "uang"@);
    }
    if (part.len() == 3 && part[0] == 'i' && part[1] == 'a' && part[2] == 'o') {
        assert(part =~= "iao"@);
    }
}

proof fn lemma_head_and_final(head: Seq<char>, key: char, part: Seq<char>)
    requires
        is_typed_with(head, key),
        can_follow(head, part),
    ensures
        initial_and_final(head + part) == Some((key, part)),
        code_without_initial(head + part) is None,
{
    lemma_initials(key);
    let syllable = head + part;
    assert(syllable[0] == head[0]);
    assert(syllable.skip(head.len() as int) =~= part);
    if head.len() == 1 {
        if part.len() > 0 {
            assert(syllable[1] == part[0]);
        }
        assert(head =~= seq![syllable[0]]);
    } else {
        assert(syllable[1] == 'h');
    }
    lemma_letters_of_finals(syllable);
}

/// Every final has its key on the Xiaohe keyboard, and nothing else is a final: after any initial
/// the code of a syllable is the key of the initial and the key of the final, whatever was typed
/// for the syllable.
pub proof fn law_each_final_has_its_key(
    raw: Seq<char>,
    head: Seq<char>,
    key: char,
    part: Seq<char>,
)
    requires
        is_typed_with(head, key),
        can_follow(head, part),
    ensures
        part == "a"@ ==> syllable_code(raw, head + part) == Ok::<Seq<char>, Seq<char>>(seq![key, 'a']),
        part == "o"@ ==> syllable_code(raw, head + part) == Ok::<Seq<char>, Seq<char>>(seq![key, 'o']),
        part == "uo"@ ==> syllable_code(raw, head + part) == Ok::<Seq<char>, Seq<char>>(seq![key, 'o']),
        part == "e"@ ==> syllable_code(raw, head + part) == Ok::<Seq<char>, Seq<char>>(seq![key, 'e']),
        part == "i"@ ==> syllable_code(raw, head + part) == Ok::<Seq<char>, Seq<char>>(seq![key, 'i']),
        part == "u"@ ==> syllable_code(raw, head + part) == Ok::<Seq<char>, Seq<char>>(seq![key, 'u']),
        part == "v"@ ==> syllable_code(raw, head + part) == Ok::<Seq<char>, Seq<char>>(seq![key, 'v']),
        part == "ü"@ ==> syllable_code(raw, head + part) == Ok::<Seq<char>, Seq<char>>(seq![key, 'v']),
        part == "ui"@ ==> syllable_code(raw, head + part) == Ok::<Seq<char>, Seq<char>>(seq![key, 'v']),
        part == "uei"@ ==> syllable_code(raw, head + part) == Ok::<Seq<char>, Seq<char>>(seq![key, 'v']),
        part == "ai"@ ==> syllable_code(raw, head + part) == Ok::<Seq<char>, Seq<char>>(seq![key, 'd']),
        part == "ei"@ ==> syllable_code(raw, head + part) == Ok::<Seq<char>, Seq<char>>(seq![key, 'w']),
        part == "ao"@ ==> syllable_code(raw, head + part) == Ok::<Seq<char>, Seq<char>>(seq![key, 'c']),
        part == "ou"@ ==> syllable_code(raw, head + part) == Ok::<Seq<char>, Seq<char>>(seq![key, 'z']),
        part == "iu"@ ==> syllable_code(raw, head + part) == Ok::<Seq<char>, Seq<char>>(seq![key, 'q']),
        part == "iou"@ ==> syllable_code(raw, head + part) == Ok::<Seq<char>, Seq<char>>(seq![key, 'q']),
        part == "ie"@ ==> syllable_code(raw, head + part) == Ok::<Seq<char>, Seq<char>>(seq![key, 'p']),
        part == "ue"@ ==> syllable_code(raw, head + part) == Ok::<Seq<char>, Seq<char>>(seq![key, 't']),
        part == "ve"@ ==> syllable_code(raw, head + part) == Ok::<Seq<char>, Seq<char>>(seq![key, 't']),
        part == "üe"@ ==> syllable_code(raw, head + part) == Ok::<Seq<char>, Seq<char>>(seq![key, 't']),
        part == "er"@ ==> syllable_code(raw, head + part) == Ok::<Seq<char>, Seq<char>>(seq![key, 'r']),
        part == "uan"@ ==> syllable_code(raw, head + part) == Ok::<Seq<char>, Seq<char>>(seq![key, 'r']),
        part == "an"@ ==> syllable_code(raw, head + part) == Ok::<Seq<char>, Seq<char>>(seq![key, 'j']),
        part == "en"@ ==> syllable_code(raw, head + part) == Ok::<Seq<char>, Seq<char>>(seq![key, 'f']),
        part == "in"@ ==> syllable_code(raw, head + part) == Ok::<Seq<char>, Seq<char>>(seq![key, 'b']),
        part == "un"@ ==> syllable_code(raw, head + part) == Ok::<Seq<char>, Seq<char>>(seq![key, 'y']),
        part == "vn"@ ==> syllable_code(raw, head + part) == Ok::<Seq<char>, Seq<char>>(seq![key, 'y']),
        part == "uen"@ ==> syllable_code(raw, head + part) == Ok::<Seq<char>, Seq<char>>(seq![key, 'y']),
        part == "ang"@ ==> syllable_code(raw, head + part) == Ok::<Seq<char>, Seq<char>>(seq![key, 'h']),
        part == "eng"@ ==> syllable_code(raw, head + part) == Ok::<Seq<char>, Seq<char>>(seq![key, 'g']),
        part == "ing"@ ==> syllable_code(raw, head + part) == Ok::<Seq<char>, Seq<char>>(seq![key, 'k']),
        part == "uai"@ ==> syllable_code(raw, head + part) == Ok::<Seq<char>, Seq<char>>(seq![key, 'k']),
        part == "ong"@ ==> syllable_code(raw, head + part) == Ok::<Seq<char>, Seq<char>>(seq![key, 's']),
        part == "iong"@ ==> syllable_code(raw, head + part) == Ok::<Seq<char>, Seq<char>>(seq![key, 's']),
        part == "ia"@ ==> syllable_code(raw, head + part) == Ok::<Seq<char>, Seq<char>>(seq![key, 'x']),
        part == "ua"@ ==> syllable_code(raw, head + part) == Ok::<Seq<char>, Seq<char>>(seq![key, 'x']),
        part == "ian"@ ==> syllable_code(raw, head + part) == Ok::<Seq<char>, Seq<char>>(seq![key, 'm']),
        part == "iang"@ ==> syllable_code(raw, head + part) == Ok::<Seq<char>, Seq<char>>(seq![key, 'l']),
        part == "uang"@ ==> syllable_code(raw, head + part) == Ok::<Seq<char>, Seq<char>>(seq![key, 'l']),
        part == "iao"@ ==> syllable_code(raw, head + part) == Ok::<Seq<char>, Seq<char>>(seq![key, 'n']),
        syllable_code(raw, head + part) is Ok ==> {
            ||| part == "a"@
            ||| part == "o"@
            ||| part == "uo"@
            ||| part == "e"@
            ||| part == "i"@
            ||| part == "u"@
            ||| part == "v"@
            ||| part == "ü"@
            ||| part == "ui"@
            ||| part == "uei"@
            ||| part == "ai"@
            ||| part == "ei"@
            ||| part == "ao"@
            ||| part == "ou"@
            ||| part == "iu"@
            ||| part == "iou"@
            ||| part == "ie"@
            ||| part == "ue"@
            ||| part == "ve"@
            ||| part == "üe"@
            ||| part == "er"@
            ||| part == "uan"@
            ||| part == "an"@
            ||| part == "en"@
            ||| part == "in"@
            ||| part == "un"@
            ||| part == "vn"@
            ||| part == "uen"@
            ||| part == "ang"@
            ||| part == "eng"@
            ||| part == "ing"@
            ||| part == "uai"@
            ||| part == "ong"@
            ||| part == "iong"@
            ||| part == "ia"@
            ||| part == "ua"@
            ||| part == "ian"@
            ||| part == "iang"@
            ||| part == "uang"@
            ||| part == "iao"@
        },
        syllable_code(raw, head + part) is Err ==> syllable_code(raw, head + part)->Err_0
            == "无法识别拼音音节“"@ + raw + "”的韵母“"@ + part + "”"@,
{
    lemma_head_and_final(head, key, part);
    lemma_letters_of_finals(part);
}

/// Each syllable without an initial has its code, and nothing else without an initial has one.
pub proof fn law_each_syllable_without_initial_has_its_code(raw: Seq<char>, syllable: Seq<char>)
    requires
        forall|head: Seq<char>, key: char| #[trigger]
            is_typed_with(head, key) ==> !head.is_prefix_of(syllable),
    ensures
        syllable == "a"@ ==> syllable_code(raw, syllable) == Ok::<Seq<char>, Seq<char>>(seq!['a', 'a']),
        syllable == "o"@ ==> syllable_code(raw, syllable) == Ok::<Seq<char>, Seq<char>>(seq!['o', 'o']),
        syllable == "e"@ ==> syllable_code(raw, syllable) == Ok::<Seq<char>, Seq<char>>(seq!['e', 'e']),
        syllable == "ai"@ ==> syllable_code(raw, syllable) == Ok::<Seq<char>, Seq<char>>(seq!['a', 'i']),
        syllable == "ei"@ ==> syllable_code(raw, syllable) == Ok::<Seq<char>, Seq<char>>(seq!['e', 'i']),
        syllable == "ao"@ ==> syllable_code(raw, syllable) == Ok::<Seq<char>, Seq<char>>(seq!['a', 'o']),
        syllable == "ou"@ ==> syllable_code(raw, syllable) == Ok::<Seq<char>, Seq<char>>(seq!['o', 'u']),
        syllable == "an"@ ==> syllable_code(raw, syllable) == Ok::<Seq<char>, Seq<char>>(seq!['a', 'n']),
        syllable == "en"@ ==> syllable_code(raw, syllable) == Ok::<Seq<char>, Seq<char>>(seq!['e', 'n']),
        syllable == "er"@ ==> syllable_code(raw, syllable) == Ok::<Seq<char>, Seq<char>>(seq!['e', 'r']),
        syllable == "ang"@ ==> syllable_code(raw, syllable) == Ok::<Seq<char>, Seq<char>>(seq!['a', 'h']),
        syllable == "eng"@ ==> syllable_code(raw, syllable) == Ok::<Seq<char>, Seq<char>>(seq!['e', 'g']),
        syllable_code(raw, syllable) is Ok ==> {
            ||| syllable == "a"@
            ||| syllable == "o"@
            ||| syllable == "e"@
            ||| syllable == "ai"@
            ||| syllable == "ei"@
            ||| syllable == "ao"@
            ||| syllable == "ou"@
            ||| syllable == "an"@
            ||| syllable == "en"@
            ||| syllable == "er"@
            ||| syllable == "ang"@
            ||| syllable == "eng"@
        },
        syllable_code(raw, syllable) is Err ==> syllable_code(raw, syllable)->Err_0
            == "无法识别拼音音节“"@ + raw + "”的声母"@,
{
    lemma_letters_of_finals(syllable);
    if let Some((initial, part)) = initial_and_final(syllable) {
        let head = syllable.take(syllable.len() - part.len());
        lemma_initials(syllable[0]);
        if head.len() == 1 {
            assert(head =~= seq![initial]);
        } else {
            assert(head =~= seq![syllable[0], 'h']);
        }
        assert(is_typed_with(head, initial));
        assert(head.is_prefix_of(syllable));
    }
    if syllable.len() == 1 && code_without_initial(syllable) is Some {
        assert(code_without_initial(syllable)->0 =~= seq![syllable[0], syllable[0]]);
    } else if syllable.len() == 2 {
        assert(syllable =~= seq![syllable[0], syllable[1]]);
    }
}

/// In the code of a longer word a syllable is typed with the key of its initial, and without an
/// initial with its first letter.
pub proof fn law_first_key_is_that_of_the_initial(
    raw: Seq<char>,
    head: Seq<char>,
    key: char,
    part: Seq<char>,
)
    requires
        is_typed_with(head, key),
        can_follow(head, part),
    ensures
        first_key(raw, head + part) == Ok::<char, Seq<char>>(key),
{
    lemma_head_and_final(head, key, part);
}

/// A syllable that starts with no initial is typed with its first letter in the code of a longer
/// word; there is no key for one that starts with no letter.
pub proof fn law_first_key_without_initial(raw: Seq<char>, syllable: Seq<char>)
    requires
        forall|head: Seq<char>, key: char| #[trigger]
            is_typed_with(head, key) ==> !head.is_prefix_of(syllable),
    ensures
        syllable.len() > 0 && 'a' <= syllable[0] <= 'z' ==> first_key(raw, syllable) == Ok::<
            char,
            Seq<char>,
        >(syllable[0]),
        !(syllable.len() > 0 && 'a' <= syllable[0] <= 'z') ==> first_key(raw, syllable) == Err::<
            char,
            Seq<char>,
        >("无法取得拼音“"@ + raw + "”的首字母"@),
{
    law_each_syllable_without_initial_has_its_code(raw, syllable);
    lemma_no_initial(syllable);
}

proof fn lemma_no_initial(syllable: Seq<char>)
    requires
        forall|head: Seq<char>, key: char| #[trigger]
            is_typed_with(head, key) ==> !head.is_prefix_of(syllable),
    ensures
        initial_and_final(syllable) is None,
{
    if let Some((initial, part)) = initial_and_final(syllable) {
        let head = syllable.take(syllable.len() - part.len());
        lemma_initials(syllable[0]);
        if head.len() == 1 {
            assert(head =~= seq![initial]);
        } else {
            assert(head =~= seq![syllable[0], 'h']);
        }
        assert(is_typed_with(head, initial));
        assert(head.is_prefix_of(syllable));
    }
}

/// Two syllables with one initial have different codes, unless their finals are two spellings of
/// one sound or share a key of the keyboard.
pub proof fn law_finals_are_told_apart(
    raw: Seq<char>,
    head: Seq<char>,
    key: char,
    part: Seq<char>,
    other: Seq<char>,
)
    requires
        is_typed_with(head, key),
        can_follow(head, part),
        can_follow(head, other),
        syllable_code(raw, head + part) is Ok,
        syllable_code(raw, head + part) == syllable_code(raw, head + other),
    ensures
        part == other || {
            ||| (part == "o"@ || part == "uo"@) && (other == "o"@ || other == "uo"@)
            ||| (part == "v"@ || part == "ü"@ || part == "ui"@ || part == "uei"@) && (other == "v"@ || other == "ü"@ || other == "ui"@ || other == "uei"@)
            ||| (part == "iu"@ || part == "iou"@) && (other == "iu"@ || other == "iou"@)
            ||| (part == "ue"@ || part == "ve"@ || part == "üe"@) && (other == "ue"@ || other == "ve"@ || other == "üe"@)
            ||| (part == "er"@ || part == "uan"@) && (other == "er"@ || other == "uan"@)
            ||| (part == "un"@ || part == "vn"@ || part == "uen"@) && (other == "un"@ || other == "vn"@ || other == "uen"@)
            ||| (part == "ing"@ || part == "uai"@) && (other == "ing"@ || other == "uai"@)
            ||| (part == "ong"@ || part == "iong"@) && (other == "ong"@ || other == "iong"@)
            ||| (part == "ia"@ || part == "ua"@) && (other == "ia"@ || other == "ua"@)
            ||| (part == "iang"@ || part == "uang"@) && (other == "iang"@ || other == "uang"@)
        },
{
    lemma_head_and_final(head, key, part);
    lemma_head_and_final(head, key, other);
    let first = seq![key, key_of_final(part)->0];
    let second = seq![key, key_of_final(other)->0];
    assert(first[1] == second[1]);
}

// Typed syllables

proof fn lemma_small_letters_stay(letters: Seq<char>, tones: Seq<char>)
    requires
        forall|i: int| 0 <= i < letters.len() ==> 'a' <= #[trigger] letters[i] <= 'z',
        forall|i: int| 0 <= i < tones.len() ==> '0' <= #[trigger] tones[i] <= '5',
    ensures
        lower_pieces(letters + tones) == letters + tones,
        umlauts_as_v(letters + tones) == letters + tones,
    decreases letters.len() + tones.len(),
{
    let s = letters + tones;
    if letters.len() > 0 {
        let rest = letters.skip(1);
        assert(s[0] == letters[0]);
        assert(s.skip(1) =~= rest + tones);
        if s.len() > 1 {
            assert(s[1] != ':') by {
                if letters.len() > 1 {
                    assert(s[1] == letters[1]);
                } else {
                    assert(s[1] == tones[0]);
                }
            }
        }
        lemma_small_letters_stay(rest, tones);
    } else if tones.len() > 0 {
        let rest = tones.skip(1);
        assert(s[0] == tones[0]);
        assert(s.skip(1) =~= letters + rest);
        lemma_small_letters_stay(letters, rest);
    }
    if s.len() > 0 {
        assert(lower_piece(s[0]) =~= seq![s[0]]);
        assert(s =~= seq![s[0]] + s.skip(1));
    } else {
        assert(lower_pieces(s) =~= s);
        assert(umlauts_as_v(s) =~= s);
    }
}

/// A syllable of small letters, with any white space around it and any digits of a tone after it,
/// is encoded by these letters, all of them and in their order.
pub proof fn law_typed_letters_are_encoded(
    before: Seq<char>,
    letters: Seq<char>,
    tones: Seq<char>,
    after: Seq<char>,
)
    requires
        forall|i: int| 0 <= i < before.len() ==> is_white_space(#[trigger] before[i]),
        forall|i: int| 0 <= i < letters.len() ==> 'a' <= #[trigger] letters[i] <= 'z',
        forall|i: int| 0 <= i < tones.len() ==> '0' <= #[trigger] tones[i] <= '5',
        forall|i: int| 0 <= i < after.len() ==> is_white_space(#[trigger] after[i]),
    ensures
        is_letterwise(before + (letters + tones) + after),
        letterwise_normalized(before + (letters + tones) + after) == letters,
        code_of(before + (letters + tones) + after) == value_of(syllable_code(letters, letters)),
{
    let core = letters + tones;
    let typed = before + core + after;
    assert forall|i: int| 0 <= i < core.len() implies '0' <= #[trigger] core[i] <= 'z'
        && core[i] != 'Σ' by {
        if i < letters.len() {
            assert(core[i] == letters[i]);
        } else {
            assert(core[i] == tones[i - letters.len()]);
        }
    }
    if core.len() > 0 {
        assert('0' <= core[0] <= 'z');
        assert('0' <= core[core.len() - 1] <= 'z');
    }
    law_trimming_cuts_white_space_off(before, core, after);
    lemma_small_letters_stay(letters, tones);
    if letters.len() > 0 {
        assert('a' <= letters[letters.len() - 1] <= 'z');
    }
    law_end_is_cut_off(letters, tones, CharClass::ToneDigit);
    assert(is_letterwise(typed));
    crate::spelling::law_code_is_that_of_the_normal_form(typed, letters, letters);
}

/// A syllable as it is typed has the code that the keyboard gives it: an initial, a final in small
/// letters, any digits of a tone, with any white space around them.
pub proof fn law_typed_syllable_has_its_keys(
    before: Seq<char>,
    head: Seq<char>,
    key: char,
    part: Seq<char>,
    tones: Seq<char>,
    after: Seq<char>,
)
    requires
        is_typed_with(head, key),
        forall|i: int| 0 <= i < before.len() ==> is_white_space(#[trigger] before[i]),
        forall|i: int| 0 <= i < part.len() ==> 'a' <= #[trigger] part[i] <= 'z',
        can_follow(head, part),
        forall|i: int| 0 <= i < tones.len() ==> '0' <= #[trigger] tones[i] <= '5',
        forall|i: int| 0 <= i < after.len() ==> is_white_space(#[trigger] after[i]),
    ensures
        part == "a"@ ==> code_of(before + (head + part + tones) + after) == Some(seq![key, 'a']),
        part == "o"@ ==> code_of(before + (head + part + tones) + after) == Some(seq![key, 'o']),
        part == "uo"@ ==> code_of(before + (head + part + tones) + after) == Some(seq![key, 'o']),
        part == "e"@ ==> code_of(before + (head + part + tones) + after) == Some(seq![key, 'e']),
        part == "i"@ ==> code_of(before + (head + part + tones) + after) == Some(seq![key, 'i']),
        part == "u"@ ==> code_of(before + (head + part + tones) + after) == Some(seq![key, 'u']),
        part == "v"@ ==> code_of(before + (head + part + tones) + after) == Some(seq![key, 'v']),
        part == "ui"@ ==> code_of(before + (head + part + tones) + after) == Some(seq![key, 'v']),
        part == "uei"@ ==> code_of(before + (head + part + tones) + after) == Some(seq![key, 'v']),
        part == "ai"@ ==> code_of(before + (head + part + tones) + after) == Some(seq![key, 'd']),
        part == "ei"@ ==> code_of(before + (head + part + tones) + after) == Some(seq![key, 'w']),
        part == "ao"@ ==> code_of(before + (head + part + tones) + after) == Some(seq![key, 'c']),
        part == "ou"@ ==> code_of(before + (head + part + tones) + after) == Some(seq![key, 'z']),
        part == "iu"@ ==> code_of(before + (head + part + tones) + after) == Some(seq![key, 'q']),
        part == "iou"@ ==> code_of(before + (head + part + tones) + after) == Some(seq![key, 'q']),
        part == "ie"@ ==> code_of(before + (head + part + tones) + after) == Some(seq![key, 'p']),
        part == "ue"@ ==> code_of(before + (head + part + tones) + after) == Some(seq![key, 't']),
        part == "ve"@ ==> code_of(before + (head + part + tones) + after) == Some(seq![key, 't']),
        part == "er"@ ==> code_of(before + (head + part + tones) + after) == Some(seq![key, 'r']),
        part == "uan"@ ==> code_of(before + (head + part + tones) + after) == Some(seq![key, 'r']),
        part == "an"@ ==> code_of(before + (head + part + tones) + after) == Some(seq![key, 'j']),
        part == "en"@ ==> code_of(before + (head + part + tones) + after) == Some(seq![key, 'f']),
        part == "in"@ ==> code_of(before + (head + part + tones) + after) == Some(seq![key, 'b']),
        part == "un"@ ==> code_of(before + (head + part + tones) + after) == Some(seq![key, 'y']),
        part == "vn"@ ==> code_of(before + (head + part + tones) + after) == Some(seq![key, 'y']),
        part == "uen"@ ==> code_of(before + (head + part + tones) + after) == Some(seq![key, 'y']),
        part == "ang"@ ==> code_of(before + (head + part + tones) + after) == Some(seq![key, 'h']),
        part == "eng"@ ==> code_of(before + (head + part + tones) + after) == Some(seq![key, 'g']),
        part == "ing"@ ==> code_of(before + (head + part + tones) + after) == Some(seq![key, 'k']),
        part == "uai"@ ==> code_of(before + (head + part + tones) + after) == Some(seq![key, 'k']),
        part == "ong"@ ==> code_of(before + (head + part + tones) + after) == Some(seq![key, 's']),
        part == "iong"@ ==> code_of(before + (head + part + tones) + after) == Some(seq![key, 's']),
        part == "ia"@ ==> code_of(before + (head + part + tones) + after) == Some(seq![key, 'x']),
        part == "ua"@ ==> code_of(before + (head + part + tones) + after) == Some(seq![key, 'x']),
        part == "ian"@ ==> code_of(before + (head + part + tones) + after) == Some(seq![key, 'm']),
        part == "iang"@ ==> code_of(before + (head + part + tones) + after) == Some(seq![key, 'l']),
        part == "uang"@ ==> code_of(before + (head + part + tones) + after) == Some(seq![key, 'l']),
        part == "iao"@ ==> code_of(before + (head + part + tones) + after) == Some(seq![key, 'n']),
        code_of(before + (head + part + tones) + after) is Some ==> {
            ||| part == "a"@
            ||| part == "o"@
            ||| part == "uo"@
            ||| part == "e"@
            ||| part == "i"@
            ||| part == "u"@
            ||| part == "v"@
            ||| part == "ui"@
            ||| part == "uei"@
            ||| part == "ai"@
            ||| part == "ei"@
            ||| part == "ao"@
            ||| part == "ou"@
            ||| part == "iu"@
            ||| part == "iou"@
            ||| part == "ie"@
            ||| part == "ue"@
            ||| part == "ve"@
            ||| part == "er"@
            ||| part == "uan"@
            ||| part == "an"@
            ||| part == "en"@
            ||| part == "in"@
            ||| part == "un"@
            ||| part == "vn"@
            ||| part == "uen"@
            ||| part == "ang"@
            ||| part == "eng"@
            ||| part == "ing"@
            ||| part == "uai"@
            ||| part == "ong"@
            ||| part == "iong"@
            ||| part == "ia"@
            ||| part == "ua"@
            ||| part == "ian"@
            ||| part == "iang"@
            ||| part == "uang"@
            ||| part == "iao"@
        },
{
    let letters = head + part;
    lemma_initials(key);
    assert forall|i: int| 0 <= i < letters.len() implies 'a' <= #[trigger] letters[i] <= 'z' by {
        if i < head.len() {
            assert(letters[i] == head[i]);
        } else {
            assert(letters[i] == part[i - head.len()]);
        }
    }
    law_typed_letters_are_encoded(before, letters, tones, after);
    law_each_final_has_its_key(letters, head, key, part);
    lemma_letters_of_finals(part);
}

} // verus!
