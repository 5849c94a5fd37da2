//! Verified core of a dictionary builder for the Xiaohe double pinyin input method.

pub mod cli;
pub mod conflict;
pub mod decode;
pub mod editable;
pub mod editor;
pub mod encode;
pub mod entry;
pub mod error;
pub mod foreign;
pub mod frequency;
pub mod laws;
pub mod order;
pub mod preview;
pub mod round_trip;
pub mod rows;
pub mod soundness;
pub mod spelling;
pub mod syllable;
pub mod text;
pub mod word_list;

pub use crate::conflict::{find_conflicts, render_conflicts, Conflict};
pub use crate::encode::{encode_entries, encode_word_from_pinyin, render_encoded, word_pinyin};
pub use crate::entry::{EncodedEntry, FrequencyEntry, WordEntry};
pub use crate::error::FlypeError;
pub use crate::frequency::{extract_frequencies, render_frequency_tsv};
pub use crate::syllable::encode_syllable;
pub use crate::word_list::{parse_word_list, parse_word_list_lenient};
