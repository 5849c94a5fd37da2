//! What the bytes of text files are taken to be.

use crate::decode::{
    chosen_text, decoded_text, file_bytes, utf8_mark, utf_16be_mark, utf_16le_mark, without_mark,
};
use crate::foreign::{big5_decoding, gb18030_decoding, utf_16be_decoding, utf_16le_decoding};
use vstd::prelude::*;
use vstd::utf8::{decode_utf8, encode_utf8, valid_utf8};

verus! {

/// Whether bytes begin with two given ones.
pub open spec fn begins_with(bytes: Seq<u8>, first: u8, second: u8) -> bool {
    bytes.len() >= 2 && bytes[0] == first && bytes[1] == second
}

proof fn lemma_marks(bytes: Seq<u8>)
    ensures
        utf_16le_mark().is_prefix_of(bytes) <==> begins_with(bytes, 0xFF, 0xFE),
        utf_16be_mark().is_prefix_of(bytes) <==> begins_with(bytes, 0xFE, 0xFF),
        utf8_mark().is_prefix_of(bytes) <==> begins_with(bytes, 0xEF, 0xBB) && bytes.len() >= 3
            && bytes[2] == 0xBF,
{
    let le = utf_16le_mark();
    let be = utf_16be_mark();
    let mark = utf8_mark();
    if begins_with(bytes, 0xFF, 0xFE) {
        assert(le =~= bytes.take(2));
    }
    if begins_with(bytes, 0xFE, 0xFF) {
        assert(be =~= bytes.take(2));
    }
    if begins_with(bytes, 0xEF, 0xBB) && bytes.len() >= 3 && bytes[2] == 0xBF {
        assert(mark =~= bytes.take(3));
    }
    if le.is_prefix_of(bytes) {
        assert(le[0] == bytes[0] && le[1] == bytes[1]);
    }
    if be.is_prefix_of(bytes) {
        assert(be[0] == bytes[0] && be[1] == bytes[1]);
    }
    if mark.is_prefix_of(bytes) {
        assert(mark[0] == bytes[0] && mark[1] == bytes[1] && mark[2] == bytes[2]);
    }
}

/// Bytes that begin with a mark of UTF-16 and have nothing wrong in them are what decoding them as
/// this UTF-16 gives.
pub proof fn law_marked_file_is_utf_16(
    bytes: Seq<u8>,
    utf_16le: (Seq<char>, bool),
    utf_16be: (Seq<char>, bool),
    gb18030: Option<Seq<char>>,
    big5: Option<Seq<char>>,
)
    ensures
        begins_with(bytes, 0xFF, 0xFE) && !utf_16le.1 ==> chosen_text(
            bytes,
            utf_16le,
            utf_16be,
            gb18030,
            big5,
        ) == Some((utf_16le.0, "UTF-16LE"@)),
        begins_with(bytes, 0xFE, 0xFF) && !utf_16be.1 ==> chosen_text(
            bytes,
            utf_16le,
            utf_16be,
            gb18030,
            big5,
        ) == Some((utf_16be.0, "UTF-16BE"@)),
{
    lemma_marks(bytes);
}

/// Bytes that are no such UTF-16 are UTF-8 if they can be, without a byte order mark before them;
/// else GB18030 if they can be; else Big5 if they can be; else no text.
pub proof fn law_other_files_are_tried_in_order(
    bytes: Seq<u8>,
    utf_16le: (Seq<char>, bool),
    utf_16be: (Seq<char>, bool),
    gb18030: Option<Seq<char>>,
    big5: Option<Seq<char>>,
    rest: Seq<u8>,
)
    requires
        begins_with(bytes, 0xFF, 0xFE) ==> utf_16le.1,
        begins_with(bytes, 0xFE, 0xFF) ==> utf_16be.1,
        rest == if begins_with(bytes, 0xEF, 0xBB) && bytes.len() >= 3 && bytes[2] == 0xBF {
            bytes.skip(3)
        } else {
            bytes
        },
    ensures
        chosen_text(bytes, utf_16le, utf_16be, gb18030, big5) == if valid_utf8(rest) {
            Some((decode_utf8(rest), "UTF-8"@))
        } else if gb18030 is Some {
            Some((gb18030->0, "gb18030"@))
        } else if big5 is Some {
            Some((big5->0, "Big5"@))
        } else {
            None
        },
{
    lemma_marks(bytes);
    assert(without_mark(bytes) == rest);
}

/// All four decoders are given the bytes as they are.
pub proof fn law_decoders_get_the_bytes(bytes: Seq<u8>)
    ensures
        decoded_text(bytes) == chosen_text(
            bytes,
            utf_16le_decoding(bytes),
            utf_16be_decoding(bytes),
            gb18030_decoding(bytes),
            big5_decoding(bytes),
        ),
{
}

/// A saved file is a byte order mark and the text in UTF-8.
pub proof fn law_saved_file_is_marked_utf8(text: Seq<char>)
    ensures
        file_bytes(text) == seq![0xEFu8, 0xBB, 0xBF] + encode_utf8(text),
{
}

} // verus!
