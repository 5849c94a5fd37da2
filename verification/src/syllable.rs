//! Syllables and their keys on the Xiaohe keyboard.

use crate::error::{text_result, value_of, FlypeError};
use crate::foreign::{
    all_plain, is_plain, lower_pieces, lower_plain, lowercase, to_lowercase,
};
use crate::text::{
    from_chars, is_text, to_chars, trim, trim_end, trimmed, trimmed_end, views, CharClass,
};
use vstd::prelude::*;
use vstd::slice::slice_subrange;

verus! {

// Normal form

/// `s` with each `u:` and each `ü` written as `v`.
pub open spec fn umlauts_as_v(s: Seq<char>) -> Seq<char>
    decreases s.len(),
{
    if s.len() == 0 {
        Seq::empty()
    } else if s.len() >= 2 && s[0] == 'u' && s[1] == ':' {
        seq!['v'] + umlauts_as_v(s.skip(2))
    } else if s[0] == 'ü' {
        seq!['v'] + umlauts_as_v(s.skip(1))
    } else {
        seq![s[0]] + umlauts_as_v(s.skip(1))
    }
}

/// What a lower case syllable becomes: umlauts are written as `v`, then the digits of the tone at
/// the end go.
pub open spec fn cleaned(lower: Seq<char>) -> Seq<char> {
    trimmed_end(umlauts_as_v(lower), CharClass::ToneDigit)
}

/// The normal form of a syllable: without white space around it, in lower case, cleaned.
pub open spec fn normalized(raw: Seq<char>) -> Seq<char> {
    cleaned(lowercase(trimmed(raw)))
}

/// The normal form of a syllable in plain pinyin.
pub open spec fn plain_normalized(raw: Seq<char>) -> Seq<char> {
    cleaned(lower_plain(trimmed(raw)))
}

/// The normal form of a syllable, each character of which is put in lower case by itself.
pub open spec fn letterwise_normalized(raw: Seq<char>) -> Seq<char> {
    cleaned(lower_pieces(trimmed(raw)))
}

/// Whether the lower case of a syllable rests on each of its characters by itself.
pub open spec fn is_letterwise(raw: Seq<char>) -> bool {
    !trimmed(raw).contains('Σ')
}

/// The normal forms of a list of syllables.
pub open spec fn normalized_all(list: Seq<Seq<char>>) -> Seq<Seq<char>> {
    Seq::new(list.len(), |i: int| normalized(list[i]))
}

/// That the normal form of each syllable in plain pinyin among `list` is the one that plain
/// letters give.
pub open spec fn plain_forms_known(list: Seq<Seq<char>>) -> bool {
    forall|i: int|
        0 <= i < list.len() && all_plain(#[trigger] list[i]) ==> normalized(list[i])
            == plain_normalized(list[i])
}

proof fn lemma_trimmed_is_plain(s: Seq<char>)
    requires
        all_plain(s),
    ensures
        all_plain(trimmed(s)),
{
    crate::text::lemma_trimmed_is_part(s);
}

proof fn lemma_lower_pieces_of_plain(s: Seq<char>)
    requires
        all_plain(s),
    ensures
        !s.contains('Σ'),
        lower_pieces(s) == lower_plain(s),
    decreases s.len(),
{
    assert forall|i: int| 0 <= i < s.len() implies s[i] != 'Σ' by {
        assert(is_plain(s[i]));
    }
    if s.len() > 0 {
        let rest = s.skip(1);
        assert forall|i: int| 0 <= i < rest.len() implies is_plain(#[trigger] rest[i]) by {
            assert(rest[i] == s[i + 1]);
        }
        lemma_lower_pieces_of_plain(rest);
        assert(is_plain(s[0]));
        assert(lower_pieces(s) =~= lower_plain(s));
    } else {
        assert(lower_pieces(s) =~= lower_plain(s));
    }
}

/// Cleans a syllable that is in lower case.
pub fn clean_syllable(lower: &str) -> (syllable: String)
    ensures
        syllable@ == cleaned(lower@),
{
    let chars: Vec<char> = to_chars(lower);
    let mut out: Vec<char> = Vec::new();
    let mut i: usize = 0;
    assert(chars@.skip(0) =~= chars@);
    while i < chars.len()
        invariant
            i <= chars.len(),
            out@ + umlauts_as_v(chars@.skip(i as int)) == umlauts_as_v(chars@),
        decreases chars.len() - i,
    {
        let ghost rest = chars@.skip(i as int);
        let ghost done = out@;
        let c: char = chars[i];
        if c == 'u' && i + 1 < chars.len() && chars[i + 1] == ':' {
            out.push('v');
            i += 2;
            assert(rest.skip(2) =~= chars@.skip(i as int));
        } else {
            out.push(if c == 'ü' { 'v' } else { c });
            i += 1;
            assert(rest.skip(1) =~= chars@.skip(i as int));
        }
        assert(out@ + umlauts_as_v(chars@.skip(i as int)) =~= done + umlauts_as_v(rest));
    }
    assert(out@ =~= umlauts_as_v(chars@));
    from_chars(trim_end(&out, CharClass::ToneDigit))
}

proof fn lemma_umlauts_as_v_keep(s: Seq<char>, c: char)
    requires
        s.contains(c),
        c != 'u',
        c != ':',
        c != 'ü',
    ensures
        umlauts_as_v(s).contains(c),
    decreases s.len(),
{
    let k = choose|k: int| 0 <= k < s.len() && s[k] == c;
    let done = umlauts_as_v(s);
    if s.len() >= 2 && s[0] == 'u' && s[1] == ':' {
        let rest = s.skip(2);
        assert(rest[k - 2] == c);
        lemma_umlauts_as_v_keep(rest, c);
        let i = choose|i: int| 0 <= i < umlauts_as_v(rest).len() && umlauts_as_v(rest)[i] == c;
        assert(done[i + 1] == c);
    } else if k == 0 {
        assert(done[0] == c);
    } else {
        let rest = s.skip(1);
        assert(rest[k - 1] == c);
        lemma_umlauts_as_v_keep(rest, c);
        let i = choose|i: int| 0 <= i < umlauts_as_v(rest).len() && umlauts_as_v(rest)[i] == c;
        assert(done[i + 1] == c);
    }
}

proof fn lemma_trimmed_end_keeps(s: Seq<char>, class: CharClass, c: char)
    requires
        s.contains(c),
        !class.has(c),
    ensures
        trimmed_end(s, class).contains(c),
    decreases s.len(),
{
    if class.has(s.last()) {
        let k = choose|k: int| 0 <= k < s.len() && s[k] == c;
        assert(s.drop_last()[k] == c);
        lemma_trimmed_end_keeps(s.drop_last(), class, c);
    }
}

proof fn lemma_cleaned_keeps(lower: Seq<char>, c: char)
    requires
        lower.contains(c),
        c > '\u{7f}',
        c != 'ü',
    ensures
        cleaned(lower).contains(c),
{
    lemma_umlauts_as_v_keep(lower, c);
    lemma_trimmed_end_keeps(umlauts_as_v(lower), CharClass::ToneDigit, c);
}

/// Brings a syllable into its normal form.
pub fn normalize_syllable(raw_syllable: &str) -> (syllable: String)
    ensures
        syllable@ == normalized(raw_syllable@),
        all_plain(raw_syllable@) ==> syllable@ == plain_normalized(raw_syllable@),
        is_letterwise(raw_syllable@) ==> syllable@ == letterwise_normalized(raw_syllable@),
        !is_letterwise(raw_syllable@) ==> syllable@.contains('σ') || syllable@.contains('ς'),
{
    let chars: Vec<char> = to_chars(raw_syllable);
    let core: String = from_chars(trim(&chars));
    let lower: String = to_lowercase(core.as_str());
    proof {
        if all_plain(raw_syllable@) {
            lemma_trimmed_is_plain(raw_syllable@);
            lemma_lower_pieces_of_plain(trimmed(raw_syllable@));
        }
        if lower@.contains('σ') {
            lemma_cleaned_keeps(lower@, 'σ');
        }
        if lower@.contains('ς') {
            lemma_cleaned_keeps(lower@, 'ς');
        }
    }
    clean_syllable(lower.as_str())
}

/// Brings each syllable of a list into its normal form.
pub fn normalize_all(list: &[String]) -> (normal: Vec<String>)
    ensures
        views(normal@) == normalized_all(views(list@)),
        plain_forms_known(views(list@)),
{
    let mut normal: Vec<String> = Vec::new();
    for i in 0..list.len()
        invariant
            normal@.len() == i,
            forall|j: int| 0 <= j < i ==> (#[trigger] normal@[j])@ == normalized(list@[j]@),
            forall|j: int|
                0 <= j < i && all_plain(#[trigger] list@[j]@) ==> normalized(list@[j]@)
                    == plain_normalized(list@[j]@),
    {
        normal.push(normalize_syllable(list[i].as_str()));
    }
    assert(views(normal@) =~= normalized_all(views(list@)));
    normal
}

// The keyboard

/// The key of a final.
pub open spec fn key_of_final(part: Seq<char>) -> Option<char> {
    if part == "a"@ {
        Some('a')
    } else if part == "o"@ || part == "uo"@ {
        Some('o')
    } else if part == "e"@ {
        Some('e')
    } else if part == "i"@ {
        Some('i')
    } else if part == "u"@ {
        Some('u')
    } else if part == "v"@ || part == "ü"@ || part == "ui"@ || part == "uei"@ {
        Some('v')
    } else if part == "ai"@ {
        Some('d')
    } else if part == "ei"@ {
        Some('w')
    } else if part == "ao"@ {
        Some('c')
    } else if part == "ou"@ {
        Some('z')
    } else if part == "iu"@ || part == "iou"@ {
        Some('q')
    } else if part == "ie"@ {
        Some('p')
    } else if part == "ue"@ || part == "ve"@ || part == "üe"@ {
        Some('t')
    } else if part == "er"@ || part == "uan"@ {
        Some('r')
    } else if part == "an"@ {
        Some('j')
    } else if part == "en"@ {
        Some('f')
    } else if part == "in"@ {
        Some('b')
    } else if part == "un"@ || part == "vn"@ || part == "uen"@ {
        Some('y')
    } else if part == "ang"@ {
        Some('h')
    } else if part == "eng"@ {
        Some('g')
    } else if part == "ing"@ || part == "uai"@ {
        Some('k')
    } else if part == "ong"@ || part == "iong"@ {
        Some('s')
    } else if part == "ia"@ || part == "ua"@ {
        Some('x')
    } else if part == "ian"@ {
        Some('m')
    } else if part == "iang"@ || part == "uang"@ {
        Some('l')
    } else if part == "iao"@ {
        Some('n')
    } else {
        None
    }
}

/// The key of a final on the Xiaohe keyboard.
pub fn final_key(part: &[char]) -> (key: Option<char>)
    ensures
        key == key_of_final(part@),
{
    if is_text(part, "a") {
        Some('a')
    } else if is_text(part, "o") || is_text(part, "uo") {
        Some('o')
    } else if is_text(part, "e") {
        Some('e')
    } else if is_text(part, "i") {
        Some('i')
    } else if is_text(part, "u") {
        Some('u')
    } else if is_text(part, "v") || is_text(part, "ü") || is_text(part, "ui") || is_text(
        part,
        "uei",
    ) {
        Some('v')
    } else if is_text(part, "ai") {
        Some('d')
    } else if is_text(part, "ei") {
        Some('w')
    } else if is_text(part, "ao") {
        Some('c')
    } else if is_text(part, "ou") {
        Some('z')
    } else if is_text(part, "iu") || is_text(part, "iou") {
        Some('q')
    } else if is_text(part, "ie") {
        Some('p')
    } else if is_text(part, "ue") || is_text(part, "ve") || is_text(part, "üe") {
        Some('t')
    } else if is_text(part, "er") || is_text(part, "uan") {
        Some('r')
    } else if is_text(part, "an") {
        Some('j')
    } else if is_text(part, "en") {
        Some('f')
    } else if is_text(part, "in") {
        Some('b')
    } else if is_text(part, "un") || is_text(part, "vn") || is_text(part, "uen") {
        Some('y')
    } else if is_text(part, "ang") {
        Some('h')
    } else if is_text(part, "eng") {
        Some('g')
    } else if is_text(part, "ing") || is_text(part, "uai") {
        Some('k')
    } else if is_text(part, "ong") || is_text(part, "iong") {
        Some('s')
    } else if is_text(part, "ia") || is_text(part, "ua") {
        Some('x')
    } else if is_text(part, "ian") {
        Some('m')
    } else if is_text(part, "iang") || is_text(part, "uang") {
        Some('l')
    } else if is_text(part, "iao") {
        Some('n')
    } else {
        None
    }
}

/// The finals that stand as syllables of their own.
pub open spec fn is_zero_initial(syllable: Seq<char>) -> bool {
    ||| syllable == "a"@
    ||| syllable == "o"@
    ||| syllable == "e"@
    ||| syllable == "ai"@
    ||| syllable == "ei"@
    ||| syllable == "ao"@
    ||| syllable == "ou"@
    ||| syllable == "an"@
    ||| syllable == "en"@
    ||| syllable == "er"@
    ||| syllable == "ang"@
    ||| syllable == "eng"@
}

/// The code of a syllable without an initial: one letter is typed twice, two are typed as they
/// are, of three the first is followed by the key of the final.
pub open spec fn code_without_initial(syllable: Seq<char>) -> Option<Seq<char>> {
    if !is_zero_initial(syllable) {
        None
    } else if syllable.len() == 1 {
        Some(seq![syllable[0], syllable[0]])
    } else if syllable.len() == 2 {
        Some(syllable)
    } else {
        match key_of_final(syllable) {
            Some(key) => Some(seq![syllable[0], key]),
            None => None,
        }
    }
}

/// The code of a syllable without an initial, if it is one.
pub fn zero_initial_code(syllable: &[char]) -> (code: Option<String>)
    ensures
        match code {
            Some(code) => code_without_initial(syllable@) == Some(code@),
            None => code_without_initial(syllable@) is None,
        },
{
    if !(is_text(syllable, "a") || is_text(syllable, "o") || is_text(syllable, "e") || is_text(
        syllable,
        "ai",
    ) || is_text(syllable, "ei") || is_text(syllable, "ao") || is_text(syllable, "ou") || is_text(
        syllable,
        "an",
    ) || is_text(syllable, "en") || is_text(syllable, "er") || is_text(syllable, "ang") || is_text(
        syllable,
        "eng",
    )) {
        return None;
    }
    proof {
        lemma_zero_initial_shape(syllable@);
    }
    if syllable.len() == 2 {
        return Some(from_chars(syllable));
    }
    let key: Option<char> = if syllable.len() == 1 {
        Some(syllable[0])
    } else {
        final_key(syllable)
    };
    match key {
        Some(key) => {
            let mut code: String = String::new();
            code.push(syllable[0]);
            code.push(key);
            assert(code@ =~= seq![syllable@[0], key]);
            Some(code)
        },
        None => None,
    }
}

/// The letters that are initials by themselves.
pub open spec fn is_initial_letter(c: char) -> bool {
    ||| c == 'b'
    ||| c == 'p'
    ||| c == 'm'
    ||| c == 'f'
    ||| c == 'd'
    ||| c == 't'
    ||| c == 'n'
    ||| c == 'l'
    ||| c == 'g'
    ||| c == 'k'
    ||| c == 'h'
    ||| c == 'j'
    ||| c == 'q'
    ||| c == 'x'
    ||| c == 'r'
    ||| c == 'z'
    ||| c == 'c'
    ||| c == 's'
    ||| c == 'y'
    ||| c == 'w'
}

/// The key of a syllable's initial and the final after it. The initials of two letters have keys
/// of their own.
pub open spec fn initial_and_final(syllable: Seq<char>) -> Option<(char, Seq<char>)> {
    if syllable.len() >= 2 && syllable[0] == 'z' && syllable[1] == 'h' {
        Some(('v', syllable.skip(2)))
    } else if syllable.len() >= 2 && syllable[0] == 'c' && syllable[1] == 'h' {
        Some(('i', syllable.skip(2)))
    } else if syllable.len() >= 2 && syllable[0] == 's' && syllable[1] == 'h' {
        Some(('u', syllable.skip(2)))
    } else if syllable.len() > 0 && is_initial_letter(syllable[0]) {
        Some((syllable[0], syllable.skip(1)))
    } else {
        None
    }
}

/// Parts a syllable into the key of its initial and its final.
pub fn split_syllable(syllable: &[char]) -> (parts: Option<(char, &[char])>)
    ensures
        match parts {
            Some((initial, part)) => initial_and_final(syllable@) == Some((initial, part@)),
            None => initial_and_final(syllable@) is None,
        },
{
    if syllable.len() == 0 {
        return None;
    }
    let first: char = syllable[0];
    if syllable.len() >= 2 && syllable[1] == 'h' && (first == 'z' || first == 'c' || first == 's') {
        let key: char = if first == 'z' {
            'v'
        } else if first == 'c' {
            'i'
        } else {
            'u'
        };
        let rest: &[char] = slice_subrange(syllable, 2, syllable.len());
        assert(rest@ =~= syllable@.skip(2));
        return Some((key, rest));
    }
    let initial: bool = match first {
        'b' | 'p' | 'm' | 'f' | 'd' | 't' | 'n' | 'l' | 'g' | 'k' | 'h' | 'j' | 'q' | 'x' | 'r'
        | 'z' | 'c' | 's' | 'y' | 'w' => true,
        _ => false,
    };
    if initial {
        let rest: &[char] = slice_subrange(syllable, 1, syllable.len());
        assert(rest@ =~= syllable@.skip(1));
        Some((first, rest))
    } else {
        None
    }
}

// Codes

/// What is said of a syllable whose initial is unknown.
pub open spec fn no_initial_message(raw: Seq<char>) -> Seq<char> {
    "无法识别拼音音节“"@ + raw + "”的声母"@
}

/// What is said of a syllable whose final is unknown.
pub open spec fn no_final_message(raw: Seq<char>, part: Seq<char>) -> Seq<char> {
    "无法识别拼音音节“"@ + raw + "”的韵母“"@ + part + "”"@
}

/// What is said of a syllable that has no first key.
pub open spec fn no_letter_message(raw: Seq<char>) -> Seq<char> {
    "无法取得拼音“"@ + raw + "”的首字母"@
}

/// The full code of a syllable in normal form, or what is said of the syllable as it was typed.
pub open spec fn syllable_code(raw: Seq<char>, syllable: Seq<char>) -> Result<
    Seq<char>,
    Seq<char>,
> {
    match code_without_initial(syllable) {
        Some(code) => Ok(code),
        None => match initial_and_final(syllable) {
            None => Err(no_initial_message(raw)),
            Some((initial, part)) => match key_of_final(part) {
                None => Err(no_final_message(raw, part)),
                Some(key) => Ok(seq![initial, key]),
            },
        },
    }
}

/// The first key of a syllable in normal form: the key of its initial, or without an initial its
/// first letter.
pub open spec fn first_key(raw: Seq<char>, syllable: Seq<char>) -> Result<char, Seq<char>> {
    match initial_and_final(syllable) {
        Some((initial, part)) => Ok(initial),
        None => if syllable.len() > 0 && 'a' <= syllable[0] <= 'z' {
            Ok(syllable[0])
        } else {
            Err(no_letter_message(raw))
        },
    }
}

/// A result whose value is a key, with the error as a text.
pub open spec fn key_result(result: Result<char, FlypeError>) -> Result<char, Seq<char>> {
    match result {
        Ok(key) => Ok(key),
        Err(error) => Err(error@),
    }
}

/// Encodes a syllable that is in normal form; `raw_syllable` is what errors show.
pub fn encode_normalized(raw_syllable: &str, syllable: &str) -> (code: Result<String, FlypeError>)
    ensures
        text_result(code) == syllable_code(raw_syllable@, syllable@),
{
    let chars: Vec<char> = to_chars(syllable);
    if let Some(code) = zero_initial_code(&chars) {
        return Ok(code);
    }
    match split_syllable(&chars) {
        None => {
            let mut message: String = String::new();
            message.append("无法识别拼音音节“");
            message.append(raw_syllable);
            message.append("”的声母");
            assert(message@ =~= no_initial_message(raw_syllable@));
            Err(FlypeError::new(message))
        },
        Some((initial, part)) => match final_key(part) {
            None => {
                let shown: String = from_chars(part);
                let mut message: String = String::new();
                message.append("无法识别拼音音节“");
                message.append(raw_syllable);
                message.append("”的韵母“");
                message.append(shown.as_str());
                message.append("”");
                assert(message@ =~= no_final_message(raw_syllable@, part@));
                Err(FlypeError::new(message))
            },
            Some(key) => {
                let mut code: String = String::new();
                code.push(initial);
                code.push(key);
                assert(code@ =~= seq![initial, key]);
                Ok(code)
            },
        },
    }
}

/// Whether a letter can stand in a final.
spec fn is_final_letter(c: char) -> bool {
    c <= '\u{7f}' || c == 'ü'
}

proof fn lemma_final_letters(part: Seq<char>)
    requires
        key_of_final(part) is Some,
    ensures
        forall|i: int| 0 <= i < part.len() ==> is_final_letter(#[trigger] part[i]),
{
    reveal_strlit("a");
    reveal_strlit("ai");
    reveal_strlit("an");
    reveal_strlit("ang");
    reveal_strlit("ao");
    reveal_strlit("e");
    reveal_strlit("ei");
    reveal_strlit("en");
    reveal_strlit("eng");
    reveal_strlit("er");
    reveal_strlit("i");
    reveal_strlit("ia");
    reveal_strlit("ian");
    reveal_strlit("iang");
    reveal_strlit("iao");
    reveal_strlit("ie");
    reveal_strlit("in");
    reveal_strlit("ing");
    reveal_strlit("iong");
    reveal_strlit("iou");
    reveal_strlit("iu");
    reveal_strlit("o");
    reveal_strlit("ong");
    reveal_strlit("ou");
    reveal_strlit("u");
    reveal_strlit("ua");
    reveal_strlit("uai");
    reveal_strlit("uan");
    reveal_strlit("uang");
    reveal_strlit("ue");
    reveal_strlit("uei");
    reveal_strlit("uen");
    reveal_strlit("ui");
    reveal_strlit("un");
    reveal_strlit("uo");
    reveal_strlit("v");
    reveal_strlit("ve");
    reveal_strlit("vn");
    reveal_strlit("ü");
    reveal_strlit("üe");
}

proof fn lemma_foreign_letter_has_no_code(raw: Seq<char>, syllable: Seq<char>, c: char)
    requires
        syllable.contains(c),
        c > '\u{7f}',
        c != 'ü',
    ensures
        syllable_code(raw, syllable) is Err,
{
    let k = choose|k: int| 0 <= k < syllable.len() && syllable[k] == c;
    if is_zero_initial(syllable) {
        lemma_zero_initial_shape(syllable);
        assert(is_key(syllable[k]));
    }
    if let Some((initial, part)) = initial_and_final(syllable) {
        let cut = syllable.len() - part.len();
        assert(part[k - cut] == c);
        if key_of_final(part) is Some {
            lemma_final_letters(part);
            assert(is_final_letter(part[k - cut]));
        }
    }
}

/// The code of a syllable, if it has one, by the lower case of each of its characters.
pub open spec fn code_of(raw: Seq<char>) -> Option<Seq<char>> {
    if is_letterwise(raw) {
        value_of(syllable_code(raw, letterwise_normalized(raw)))
    } else {
        None
    }
}

/// The full code of a syllable: two keys.
pub fn encode_syllable(raw_syllable: &str) -> (code: Result<String, FlypeError>)
    ensures
        text_result(code) == syllable_code(raw_syllable@, normalized(raw_syllable@)),
        value_of(text_result(code)) == code_of(raw_syllable@),
        all_plain(raw_syllable@) ==> normalized(raw_syllable@) == plain_normalized(raw_syllable@),
        is_letterwise(raw_syllable@) ==> normalized(raw_syllable@) == letterwise_normalized(
            raw_syllable@,
        ),
{
    let syllable: String = normalize_syllable(raw_syllable);
    proof {
        if syllable@.contains('σ') {
            lemma_foreign_letter_has_no_code(raw_syllable@, syllable@, 'σ');
        }
        if syllable@.contains('ς') {
            lemma_foreign_letter_has_no_code(raw_syllable@, syllable@, 'ς');
        }
    }
    encode_normalized(raw_syllable, syllable.as_str())
}

/// The first key of a syllable that is in normal form; `raw_syllable` is what errors show.
pub fn first_letter_normalized(
    raw_syllable: &str,
    syllable: &str,
) -> (key: Result<char, FlypeError>)
    ensures
        key_result(key) == first_key(raw_syllable@, syllable@),
{
    let chars: Vec<char> = to_chars(syllable);
    if let Some((initial, _part)) = split_syllable(&chars) {
        return Ok(initial);
    }
    if chars.len() > 0 && 'a' <= chars[0] && chars[0] <= 'z' {
        return Ok(chars[0]);
    }
    let mut message: String = String::new();
    message.append("无法取得拼音“");
    message.append(raw_syllable);
    message.append("”的首字母");
    assert(message@ =~= no_letter_message(raw_syllable@));
    Err(FlypeError::new(message))
}

/// The key that stands for a syllable in the code of a longer word.
pub fn first_letter(raw_syllable: &str) -> (key: Result<char, FlypeError>)
    ensures
        key_result(key) == first_key(raw_syllable@, normalized(raw_syllable@)),
        all_plain(raw_syllable@) ==> normalized(raw_syllable@) == plain_normalized(raw_syllable@),
        is_letterwise(raw_syllable@) ==> normalized(raw_syllable@) == letterwise_normalized(
            raw_syllable@,
        ),
{
    let syllable: String = normalize_syllable(raw_syllable);
    first_letter_normalized(raw_syllable, syllable.as_str())
}

/// The letters of the keyboard.
pub open spec fn is_key(c: char) -> bool {
    'a' <= c <= 'z'
}

proof fn lemma_zero_initial_shape(syllable: Seq<char>)
    requires
        is_zero_initial(syllable),
    ensures
        1 <= syllable.len() <= 3,
        forall|i: int| 0 <= i < syllable.len() ==> is_key(#[trigger] syllable[i]),
        syllable[0] == 'a' || syllable[0] == 'o' || syllable[0] == 'e',
{
    reveal_strlit("a");
    reveal_strlit("o");
    reveal_strlit("e");
    reveal_strlit("ai");
    reveal_strlit("ei");
    reveal_strlit("ao");
    reveal_strlit("ou");
    reveal_strlit("an");
    reveal_strlit("en");
    reveal_strlit("er");
    reveal_strlit("ang");
    reveal_strlit("eng");
}

/// Every full code is two keys of the keyboard.
pub proof fn law_full_code_is_two_keys(raw: Seq<char>, syllable: Seq<char>)
    requires
        syllable_code(raw, syllable) is Ok,
    ensures
        syllable_code(raw, syllable)->Ok_0.len() == 2,
        forall|i: int| 0 <= i < 2 ==> is_key(#[trigger] syllable_code(raw, syllable)->Ok_0[i]),
{
    if is_zero_initial(syllable) {
        lemma_zero_initial_shape(syllable);
    }
}

/// The first key of a syllable is the first key of its full code.
pub proof fn law_first_key_starts_the_full_code(raw: Seq<char>, syllable: Seq<char>)
    requires
        syllable_code(raw, syllable) is Ok,
    ensures
        first_key(raw, syllable) == Ok::<char, Seq<char>>(syllable_code(raw, syllable)->Ok_0[0]),
{
    if is_zero_initial(syllable) {
        lemma_zero_initial_shape(syllable);
    }
}

} // verus!
