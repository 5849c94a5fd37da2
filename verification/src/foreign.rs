//! What the library takes from std and from other crates. Verus does not read these bodies: the
//! contracts here are all that the proofs rest on beyond vstd.

use crate::text::{concatenated, optional_text, views};
use encoding_rs::{BIG5, GB18030, UTF_16BE, UTF_16LE};
use jieba_rs::Jieba;
use pinyin::ToPinyin;
use vstd::prelude::*;
use vstd::utf8::{encode_utf8, valid_utf8};

verus! {

/// `String::push` adds one character at the end of the text and changes nothing else.
pub assume_specification[ String::push ](s: &mut String, c: char)
    ensures
        final(s)@ == old(s)@.push(c),
;

/// What `str::to_lowercase` makes of a text.
pub uninterp spec fn lowercase(s: Seq<char>) -> Seq<char>;

/// The characters that plain pinyin is typed with: ASCII and the letters `ü` and `Ü`.
pub open spec fn is_plain(c: char) -> bool {
    c <= '\u{7f}' || c == 'ü' || c == 'Ü'
}

/// Whether `s` holds nothing but such characters.
pub open spec fn all_plain(s: Seq<char>) -> bool {
    forall|i: int| 0 <= i < s.len() ==> is_plain(#[trigger] s[i])
}

/// The lower case of a character of plain pinyin.
pub open spec fn lower_char(c: char) -> char {
    if 'A' <= c <= 'Z' {
        (c as int + 32) as char
    } else if c == 'Ü' {
        'ü'
    } else {
        c
    }
}

/// The lower case of plain pinyin.
pub open spec fn lower_plain(s: Seq<char>) -> Seq<char> {
    Seq::new(s.len(), |i: int| lower_char(s[i]))
}

/// The lower case of a character by itself, which may be more than one character.
pub open spec fn lower_piece(c: char) -> Seq<char> {
    if is_plain(c) {
        seq![lower_char(c)]
    } else {
        lowercase(seq![c])
    }
}

/// The lower case of each character of a text by itself, one after the other.
pub open spec fn lower_pieces(s: Seq<char>) -> Seq<char>
    decreases s.len(),
{
    if s.len() == 0 {
        Seq::empty()
    } else {
        lower_piece(s[0]) + lower_pieces(s.skip(1))
    }
}

/// `str::to_lowercase`: the result is a function of the text alone. Each character is put in lower
/// case by itself, wherever it stands: the letters `A` to `Z` become `a` to `z`, `Ü` becomes `ü`,
/// and every other character of ASCII, and `ü`, stays. The one exception is a capital sigma, which
/// becomes a small one of either form by its place in the word. Of a text that holds one, no more
/// is said than that one of these is in the result.
#[verifier::external_body]
pub(crate) fn to_lowercase(s: &str) -> (lower: String)
    ensures
        lower@ == lowercase(s@),
        !s@.contains('Σ') ==> lower@ == lower_pieces(s@),
        s@.contains('Σ') ==> lower@.contains('σ') || lower@.contains('ς'),
{
    s.to_lowercase()
}

/// The plain pinyin that the crate `pinyin` has for a character, if it has one.
pub uninterp spec fn plain_pinyin(c: char) -> Option<Seq<char>>;

/// Where the table of the crate `pinyin` may have something.
pub open spec fn in_pinyin_range(c: char) -> bool {
    '\u{3007}' <= c && c != '\u{feff}'
}

/// `ToPinyin::to_pinyin` of a character and `Pinyin::plain` of what it gives: the result is looked
/// up in a fixed table. The table begins at U+3007 and has nothing for U+FEFF.
#[verifier::external_body]
pub(crate) fn char_pinyin(c: char) -> (reading: Option<String>)
    ensures
        match reading {
            Some(text) => plain_pinyin(c) == Some(text@),
            None => plain_pinyin(c) is None,
        },
        reading is Some ==> in_pinyin_range(c),
{
    match c.to_pinyin() {
        Some(found) => Some(found.plain().to_owned()),
        None => None,
    }
}

/// The word segmenter of the crate `jieba_rs`, with the dictionary that it has loaded.
#[verifier::external_type_specification]
#[verifier::external_body]
pub struct ExJieba(jieba_rs::Jieba);

/// The tokens into which `Jieba::cut` cuts a text, with or without guessing new words.
pub uninterp spec fn cut_tokens(jieba: &Jieba, text: Seq<char>, hmm: bool) -> Seq<Seq<char>>;

/// `Jieba::cut`: the tokens are a function of the segmenter, which the call does not change, of
/// the text and of `hmm`, and together they are the text. The segmenter counts positions inside a
/// run of the text with 32 bits.
#[verifier::external_body]
pub(crate) fn cut_text(jieba: &Jieba, text: &str, hmm: bool) -> (tokens: Vec<String>)
    requires
        encode_utf8(text@).len() <= u32::MAX,
    ensures
        views(tokens@) == cut_tokens(jieba, text@, hmm),
        concatenated(views(tokens@)) == text@,
{
    jieba.cut(text, hmm).into_iter().map(|token| token.word.to_owned()).collect()
}

/// The error of `std::str::from_utf8`: where in the bytes the first error stands.
#[verifier::external_type_specification]
#[verifier::external_body]
pub struct ExUtf8Error(core::str::Utf8Error);

/// `std::str::from_utf8`: succeeds on valid UTF-8 and on nothing else, and the text that it gives
/// has the given bytes.
pub assume_specification[ core::str::from_utf8 ](v: &[u8]) -> (text: Result<
    &str,
    core::str::Utf8Error,
>)
    ensures
        match text {
            Ok(text) => valid_utf8(v@) && encode_utf8(text@) == v@,
            Err(_) => !valid_utf8(v@),
        },
;

/// How many bytes the decoders below take: they reserve at most three bytes for each byte of the
/// input, and a few more, and would panic if that were more than a buffer can have.
pub open spec fn fits_decoder(bytes: Seq<u8>) -> bool {
    bytes.len() <= isize::MAX / 4
}

/// What `Encoding::decode_with_bom_removal` makes of bytes as little endian UTF-16: the text, and
/// whether something in it had to be replaced.
pub uninterp spec fn utf_16le_decoding(bytes: Seq<u8>) -> (Seq<char>, bool);

/// `Encoding::decode_with_bom_removal` of `UTF_16LE`: the result is a function of the bytes alone.
#[verifier::external_body]
pub(crate) fn decode_utf_16le(bytes: &[u8]) -> (decoding: (String, bool))
    requires
        fits_decoder(bytes@),
    ensures
        (decoding.0@, decoding.1) == utf_16le_decoding(bytes@),
{
    let (text, had_errors) = UTF_16LE.decode_with_bom_removal(bytes);
    (text.into_owned(), had_errors)
}

/// What `Encoding::decode_with_bom_removal` makes of bytes as big endian UTF-16: the text, and
/// whether something in it had to be replaced.
pub uninterp spec fn utf_16be_decoding(bytes: Seq<u8>) -> (Seq<char>, bool);

/// `Encoding::decode_with_bom_removal` of `UTF_16BE`: the result is a function of the bytes alone.
#[verifier::external_body]
pub(crate) fn decode_utf_16be(bytes: &[u8]) -> (decoding: (String, bool))
    requires
        fits_decoder(bytes@),
    ensures
        (decoding.0@, decoding.1) == utf_16be_decoding(bytes@),
{
    let (text, had_errors) = UTF_16BE.decode_with_bom_removal(bytes);
    (text.into_owned(), had_errors)
}

/// What `Encoding::decode_without_bom_handling_and_without_replacement` makes of bytes as
/// GB18030, if they are that.
pub uninterp spec fn gb18030_decoding(bytes: Seq<u8>) -> Option<Seq<char>>;

/// `Encoding::decode_without_bom_handling_and_without_replacement` of `GB18030`: the result is a
/// function of the bytes alone.
#[verifier::external_body]
pub(crate) fn decode_gb18030(bytes: &[u8]) -> (text: Option<String>)
    requires
        fits_decoder(bytes@),
    ensures
        optional_text(text) == gb18030_decoding(bytes@),
{
    GB18030.decode_without_bom_handling_and_without_replacement(bytes).map(|text| text.into_owned())
}

/// What `Encoding::decode_without_bom_handling_and_without_replacement` makes of bytes as Big5,
/// if they are that.
pub uninterp spec fn big5_decoding(bytes: Seq<u8>) -> Option<Seq<char>>;

/// `Encoding::decode_without_bom_handling_and_without_replacement` of `BIG5`: the result is a
/// function of the bytes alone.
#[verifier::external_body]
pub(crate) fn decode_big5(bytes: &[u8]) -> (text: Option<String>)
    requires
        fits_decoder(bytes@),
    ensures
        optional_text(text) == big5_decoding(bytes@),
{
    BIG5.decode_without_bom_handling_and_without_replacement(bytes).map(|text| text.into_owned())
}

} // verus!
