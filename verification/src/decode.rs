//! The bytes of text files.

use crate::foreign::{
    big5_decoding, decode_big5, decode_gb18030, decode_utf_16be, decode_utf_16le, fits_decoder,
    gb18030_decoding, utf_16be_decoding, utf_16le_decoding,
};
use crate::text::optional_text;
use vstd::prelude::*;
use vstd::slice::slice_subrange;
use vstd::utf8::{
    decode_utf8, encode_utf8, encode_utf8_decode_utf8, encode_utf8_first_scalar,
    encode_utf8_valid_utf8, valid_utf8,
};

verus! {

/// The byte order mark in UTF-8.
pub open spec fn utf8_mark() -> Seq<u8> {
    seq![0xEF, 0xBB, 0xBF]
}

/// The byte order mark in little endian UTF-16.
pub open spec fn utf_16le_mark() -> Seq<u8> {
    seq![0xFF, 0xFE]
}

/// The byte order mark in big endian UTF-16.
pub open spec fn utf_16be_mark() -> Seq<u8> {
    seq![0xFE, 0xFF]
}

/// The bytes without a byte order mark in UTF-8 at their start.
pub open spec fn without_mark(bytes: Seq<u8>) -> Seq<u8> {
    if utf8_mark().is_prefix_of(bytes) {
        bytes.skip(3)
    } else {
        bytes
    }
}

/// A text with the name of the encoding that it was read in.
pub open spec fn named_text(text: Option<(String, &'static str)>) -> Option<
    (Seq<char>, Seq<char>),
> {
    match text {
        Some((text, name)) => Some((text@, name@)),
        None => None,
    }
}

/// What a text is taken to be that begins with the mark of UTF-16, given what decoding it gave.
pub open spec fn marked_text(bytes: Seq<u8>, decoding: (Seq<char>, bool)) -> Option<
    (Seq<char>, Seq<char>),
> {
    if decoding.1 {
        None
    } else if utf_16le_mark().is_prefix_of(bytes) {
        Some((decoding.0, "UTF-16LE"@))
    } else if utf_16be_mark().is_prefix_of(bytes) {
        Some((decoding.0, "UTF-16BE"@))
    } else {
        None
    }
}

/// What a text is taken to be by its bytes as UTF-8.
pub open spec fn utf8_text(bytes: Seq<u8>) -> Option<(Seq<char>, Seq<char>)> {
    if valid_utf8(without_mark(bytes)) {
        Some((decode_utf8(without_mark(bytes)), "UTF-8"@))
    } else {
        None
    }
}

/// What a text is taken to be that is no UTF-8, given what decoding it gave.
pub open spec fn fallback_text(gb18030: Option<Seq<char>>, big5: Option<Seq<char>>) -> Option<
    (Seq<char>, Seq<char>),
> {
    match gb18030 {
        Some(text) => Some((text, "gb18030"@)),
        None => match big5 {
            Some(text) => Some((text, "Big5"@)),
            None => None,
        },
    }
}

/// What the bytes of a text file are taken to be, given what decoding them gave: UTF-16 if they
/// begin with its mark and nothing in them is wrong, else UTF-8, GB18030 or Big5, whichever they
/// are first.
pub open spec fn chosen_text(
    bytes: Seq<u8>,
    utf_16le: (Seq<char>, bool),
    utf_16be: (Seq<char>, bool),
    gb18030: Option<Seq<char>>,
    big5: Option<Seq<char>>,
) -> Option<(Seq<char>, Seq<char>)> {
    let utf_16 = if utf_16le_mark().is_prefix_of(bytes) {
        utf_16le
    } else {
        utf_16be
    };
    if marked_text(bytes, utf_16) is Some {
        marked_text(bytes, utf_16)
    } else if utf8_text(bytes) is Some {
        utf8_text(bytes)
    } else {
        fallback_text(gb18030, big5)
    }
}

/// What the bytes of a text file are taken to be.
pub open spec fn decoded_text(bytes: Seq<u8>) -> Option<(Seq<char>, Seq<char>)> {
    chosen_text(
        bytes,
        utf_16le_decoding(bytes),
        utf_16be_decoding(bytes),
        gb18030_decoding(bytes),
        big5_decoding(bytes),
    )
}

/// Takes the text of a file that begins with the mark of UTF-16, given what decoding it gave.
pub fn accept_marked(bytes: &[u8], decoding: (String, bool)) -> (text: Option<
    (String, &'static str),
>)
    ensures
        named_text(text) == marked_text(bytes@, (decoding.0@, decoding.1)),
{
    if decoding.1 {
        None
    } else if bytes.len() >= 2 && bytes[0] == 0xFF && bytes[1] == 0xFE {
        assert(utf_16le_mark() =~= bytes@.take(2));
        Some((decoding.0, "UTF-16LE"))
    } else if bytes.len() >= 2 && bytes[0] == 0xFE && bytes[1] == 0xFF {
        assert(utf_16be_mark() =~= bytes@.take(2));
        assert(bytes@.take(2)[0] != utf_16le_mark()[0]);
        Some((decoding.0, "UTF-16BE"))
    } else {
        proof {
            if utf_16le_mark().is_prefix_of(bytes@) {
                assert(bytes@[0] == utf_16le_mark()[0] && bytes@[1] == utf_16le_mark()[1]);
            }
            if utf_16be_mark().is_prefix_of(bytes@) {
                assert(bytes@[0] == utf_16be_mark()[0] && bytes@[1] == utf_16be_mark()[1]);
            }
        }
        None
    }
}

/// Reads bytes as UTF-8, with or without a byte order mark.
pub fn read_utf8(bytes: &[u8]) -> (text: Option<(String, &'static str)>)
    ensures
        named_text(text) == utf8_text(bytes@),
{
    let rest: &[u8] = if bytes.len() >= 3 && bytes[0] == 0xEF && bytes[1] == 0xBB && bytes[2]
        == 0xBF {
        assert(utf8_mark() =~= bytes@.take(3));
        slice_subrange(bytes, 3, bytes.len())
    } else {
        proof {
            if utf8_mark().is_prefix_of(bytes@) {
                assert(bytes@[0] == utf8_mark()[0] && bytes@[1] == utf8_mark()[1] && bytes@[2]
                    == utf8_mark()[2]);
            }
        }
        bytes
    };
    assert(rest@ =~= without_mark(bytes@));
    match core::str::from_utf8(rest) {
        Ok(text) => {
            proof {
                encode_utf8_decode_utf8(text@);
            }
            Some((text.to_owned(), "UTF-8"))
        },
        Err(_) => None,
    }
}

/// Takes the text of a file that is no UTF-8, given what decoding it gave.
pub fn accept_fallback(gb18030: Option<String>, big5: Option<String>) -> (text: Option<
    (String, &'static str),
>)
    ensures
        named_text(text) == fallback_text(optional_text(gb18030), optional_text(big5)),
{
    match gb18030 {
        Some(text) => Some((text, "gb18030")),
        None => match big5 {
            Some(text) => Some((text, "Big5")),
            None => None,
        },
    }
}

/// Reads the bytes of a text file, with the name of the encoding that they are taken to be in.
pub fn decode_text(bytes: &[u8]) -> (text: Option<(String, &'static str)>)
    requires
        fits_decoder(bytes@),
    ensures
        named_text(text) == decoded_text(bytes@),
{
    let first: u8 = if bytes.len() >= 2 {
        bytes[0]
    } else {
        0
    };
    let marked: Option<(String, &'static str)> = if first == 0xFF && bytes[1] == 0xFE {
        assert(utf_16le_mark() =~= bytes@.take(2));
        accept_marked(bytes, decode_utf_16le(bytes))
    } else if first == 0xFE && bytes[1] == 0xFF {
        assert(utf_16be_mark() =~= bytes@.take(2));
        assert(bytes@.take(2)[0] != utf_16le_mark()[0]);
        accept_marked(bytes, decode_utf_16be(bytes))
    } else {
        proof {
            if utf_16le_mark().is_prefix_of(bytes@) {
                assert(bytes@[0] == utf_16le_mark()[0] && bytes@[1] == utf_16le_mark()[1]);
            }
            if utf_16be_mark().is_prefix_of(bytes@) {
                assert(bytes@[0] == utf_16be_mark()[0] && bytes@[1] == utf_16be_mark()[1]);
            }
        }
        None
    };
    if marked.is_some() {
        return marked;
    }
    let utf8: Option<(String, &'static str)> = read_utf8(bytes);
    if utf8.is_some() {
        return utf8;
    }
    let gb18030: Option<String> = decode_gb18030(bytes);
    let big5: Option<String> = if gb18030.is_some() {
        None
    } else {
        decode_big5(bytes)
    };
    accept_fallback(gb18030, big5)
}

/// The bytes of a text file: UTF-8 with a byte order mark.
pub open spec fn file_bytes(text: Seq<char>) -> Seq<u8> {
    utf8_mark() + encode_utf8(text)
}

/// The bytes that a text is saved as.
pub fn encode_file(text: &str) -> (bytes: Vec<u8>)
    ensures
        bytes@ == file_bytes(text@),
{
    let mut bytes: Vec<u8> = Vec::new();
    bytes.push(0xEF);
    bytes.push(0xBB);
    bytes.push(0xBF);
    bytes.extend_from_slice(text.as_bytes());
    assert(bytes@ =~= file_bytes(text@));
    bytes
}

/// A text that was saved is read back as it was, as UTF-8, whatever the decoders of other
/// encodings would make of its bytes.
pub proof fn law_saved_text_reads_back(
    text: Seq<char>,
    utf_16le: (Seq<char>, bool),
    utf_16be: (Seq<char>, bool),
    gb18030: Option<Seq<char>>,
    big5: Option<Seq<char>>,
)
    ensures
        chosen_text(file_bytes(text), utf_16le, utf_16be, gb18030, big5) == Some(
            (text, "UTF-8"@),
        ),
{
    let bytes = file_bytes(text);
    assert(bytes[0] == 0xEF);
    if utf_16le_mark().is_prefix_of(bytes) {
        assert(bytes[0] == utf_16le_mark()[0]);
    }
    if utf_16be_mark().is_prefix_of(bytes) {
        assert(bytes[0] == utf_16be_mark()[0]);
    }
    assert(bytes.take(3) =~= utf8_mark());
    assert(bytes.skip(3) =~= encode_utf8(text));
    encode_utf8_valid_utf8(text);
    encode_utf8_decode_utf8(text);
}

/// A text in UTF-8 without a byte order mark is read as it is, whatever the decoders of other
/// encodings would make of its bytes.
pub proof fn law_plain_utf8_reads_back(
    text: Seq<char>,
    utf_16le: (Seq<char>, bool),
    utf_16be: (Seq<char>, bool),
    gb18030: Option<Seq<char>>,
    big5: Option<Seq<char>>,
)
    requires
        text.len() == 0 || text[0] != '\u{feff}',
    ensures
        chosen_text(encode_utf8(text), utf_16le, utf_16be, gb18030, big5) == Some(
            (text, "UTF-8"@),
        ),
{
    let bytes = encode_utf8(text);
    encode_utf8_valid_utf8(text);
    encode_utf8_decode_utf8(text);
    if text.len() > 0 {
        encode_utf8_first_scalar(text);
        assert(bytes[0] <= 0xF7);
    }
    if utf_16le_mark().is_prefix_of(bytes) {
        assert(bytes[0] == utf_16le_mark()[0]);
    }
    if utf_16be_mark().is_prefix_of(bytes) {
        assert(bytes[0] == utf_16be_mark()[0]);
    }
    if utf8_mark().is_prefix_of(bytes) {
        assert(bytes[0] == utf8_mark()[0] && bytes[1] == utf8_mark()[1] && bytes[2]
            == utf8_mark()[2]);
        assert((((0xEFu8 & 0x0Fu8) as u32) << 12u32) | (((0xBBu8 & 0x3Fu8) as u32) << 6u32) | ((
        0xBFu8 & 0x3Fu8) as u32) == 0xFEFFu32) by (bit_vector);
        assert(text[0] as u32 == 0xFEFF);
    }
}

} // verus!
