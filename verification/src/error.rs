//! The error of the library: a message for the person who revises the word list.

use vstd::prelude::*;

verus! {

/// Why a text could not be read, spoken or encoded. Its view is the message.
#[derive(Debug, PartialEq, Eq)]
pub struct FlypeError(String);

impl View for FlypeError {
    type V = Seq<char>;

    closed spec fn view(&self) -> Seq<char> {
        self.0@
    }
}

impl Clone for FlypeError {
    fn clone(&self) -> (copy: Self)
        ensures
            copy@ == self@,
    {
        FlypeError(self.0.clone())
    }
}

impl FlypeError {
    /// An error with the given message.
    pub fn new(message: String) -> (error: Self)
        ensures
            error@ == message@,
    {
        FlypeError(message)
    }

    /// The message.
    pub fn message(&self) -> (message: String)
        ensures
            message@ == self@,
    {
        self.0.clone()
    }
}

/// A result whose value is a text, with both sides as texts.
pub open spec fn text_result(result: Result<String, FlypeError>) -> Result<Seq<char>, Seq<char>> {
    match result {
        Ok(text) => Ok(text@),
        Err(error) => Err(error@),
    }
}

/// The value of a result, if it has one.
pub open spec fn value_of<T, E>(result: Result<T, E>) -> Option<T> {
    match result {
        Ok(value) => Some(value),
        Err(_) => None,
    }
}

/// The values of a list of results if there is no error among them, the first error otherwise.
pub open spec fn collected<T, E>(results: Seq<Result<T, E>>) -> Result<Seq<T>, E>
    decreases results.len(),
{
    if results.len() == 0 {
        Ok(Seq::empty())
    } else {
        match collected(results.drop_last()) {
            Err(error) => Err(error),
            Ok(values) => match results.last() {
                Err(error) => Err(error),
                Ok(value) => Ok(values.push(value)),
            },
        }
    }
}

/// An error at some place decides the result, unless an earlier one did.
pub proof fn lemma_collected_stops<T, E>(results: Seq<Result<T, E>>, k: int)
    requires
        0 <= k <= results.len(),
        collected(results.take(k)) is Err,
    ensures
        collected(results) == collected(results.take(k)),
    decreases results.len() - k,
{
    if k < results.len() {
        assert(results.take(k + 1).drop_last() =~= results.take(k));
        lemma_collected_stops(results, k + 1);
    } else {
        assert(results.take(k) =~= results);
    }
}

/// Without an error, all values are collected.
pub proof fn lemma_collected_succeeds<T, E>(results: Seq<Result<T, E>>)
    requires
        forall|i: int| 0 <= i < results.len() ==> #[trigger] results[i] is Ok,
    ensures
        collected(results) matches Ok(values) && values.len() == results.len(),
    decreases results.len(),
{
    if results.len() > 0 {
        let before = results.drop_last();
        assert forall|i: int| 0 <= i < before.len() implies #[trigger] before[i] is Ok by {
            assert(before[i] == results[i]);
        }
        lemma_collected_succeeds(before);
        assert(results[results.len() - 1] is Ok);
    }
}

} // verus!
