//! The entries of word lists and dictionaries.

use crate::text::views;
use vstd::prelude::*;

verus! {

/// A word and how often it occurs in a text.
#[derive(Debug, PartialEq, Eq)]
pub struct FrequencyEntry {
    pub word: String,
    pub frequency: u64,
}

/// A line of a word list: a word, perhaps with its frequency, perhaps with its syllables.
#[derive(Debug, PartialEq, Eq)]
pub struct WordEntry {
    pub word: String,
    pub frequency: Option<u64>,
    pub pinyin: Option<Vec<String>>,
}

/// A word with its code.
#[derive(Debug, PartialEq, Eq)]
pub struct EncodedEntry {
    pub word: String,
    pub code: String,
    pub frequency: Option<u64>,
}

/// What a `FrequencyEntry` says.
pub struct FrequencyText {
    pub word: Seq<char>,
    pub frequency: u64,
}

/// What a `WordEntry` says.
#[verifier::ext_equal]
pub struct WordText {
    pub word: Seq<char>,
    pub frequency: Option<u64>,
    pub pinyin: Option<Seq<Seq<char>>>,
}

/// What an `EncodedEntry` says.
pub struct EncodedText {
    pub word: Seq<char>,
    pub code: Seq<char>,
    pub frequency: Option<u64>,
}

impl View for FrequencyEntry {
    type V = FrequencyText;

    open spec fn view(&self) -> FrequencyText {
        FrequencyText { word: self.word@, frequency: self.frequency }
    }
}

/// The syllables of an entry.
pub open spec fn syllable_texts(pinyin: Option<Vec<String>>) -> Option<Seq<Seq<char>>> {
    match pinyin {
        Some(list) => Some(views(list@)),
        None => None,
    }
}

impl View for WordEntry {
    type V = WordText;

    open spec fn view(&self) -> WordText {
        WordText {
            word: self.word@,
            frequency: self.frequency,
            pinyin: syllable_texts(self.pinyin),
        }
    }
}

impl View for EncodedEntry {
    type V = EncodedText;

    open spec fn view(&self) -> EncodedText {
        EncodedText { word: self.word@, code: self.code@, frequency: self.frequency }
    }
}

impl Clone for FrequencyEntry {
    fn clone(&self) -> (copy: Self)
        ensures
            copy@ == self@,
    {
        FrequencyEntry { word: self.word.clone(), frequency: self.frequency }
    }
}

impl Clone for WordEntry {
    fn clone(&self) -> (copy: Self)
        ensures
            copy@ == self@,
    {
        let pinyin: Option<Vec<String>> = match &self.pinyin {
            Some(list) => Some(copy_texts(list)),
            None => None,
        };
        WordEntry { word: self.word.clone(), frequency: self.frequency, pinyin }
    }
}

impl Clone for EncodedEntry {
    fn clone(&self) -> (copy: Self)
        ensures
            copy@ == self@,
    {
        EncodedEntry {
            word: self.word.clone(),
            code: self.code.clone(),
            frequency: self.frequency,
        }
    }
}

/// A copy of a list of texts.
pub fn copy_texts(list: &[String]) -> (copy: Vec<String>)
    ensures
        views(copy@) == views(list@),
{
    let mut copy: Vec<String> = Vec::new();
    for i in 0..list.len()
        invariant
            copy@.len() == i,
            forall|j: int| 0 <= j < i ==> (#[trigger] copy@[j])@ == list@[j]@,
    {
        copy.push(list[i].clone());
    }
    assert(views(copy@) =~= views(list@));
    copy
}

} // verus!
