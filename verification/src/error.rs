//! What can go wrong.

use vstd::prelude::*;

verus! {

/// Why there is no report.
#[derive(PartialEq, Eq, Debug)]
pub enum Error {
    /// The endpoint failed, and says why.
    Endpoint(String),
}

/// What an [`Error`] is.
pub ghost enum ErrorV {
    Endpoint(Seq<char>),
}

impl View for Error {
    type V = ErrorV;

    open spec fn view(&self) -> ErrorV {
        match *self {
            Error::Endpoint(message) => ErrorV::Endpoint(message@),
        }
    }
}

/// What a fallible computation came to.
pub open spec fn outcome<T: View>(r: Result<T, Error>) -> Result<T::V, ErrorV> {
    match r {
        Ok(value) => Ok(value@),
        Err(e) => Err(e@),
    }
}

/// What a fallible computation of an outside value came to.
pub open spec fn plain<T>(r: Result<T, Error>) -> Result<T, ErrorV> {
    match r {
        Ok(value) => Ok(value),
        Err(e) => Err(e@),
    }
}

/// The failure with the given message.
pub fn refusal(message: &str) -> (r: Error)
    ensures
        r@ == ErrorV::Endpoint(message@),
{
    let mut text = String::new();
    text.append(message);
    assert(text@ =~= message@);
    Error::Endpoint(text)
}

/// The failure with the message `start`, then `rest`.
pub open spec fn failure_view(start: Seq<char>, rest: Seq<char>) -> ErrorV {
    ErrorV::Endpoint(start + rest)
}

/// The failure with the message `start`, then `rest`.
pub fn failure(start: &str, rest: &str) -> (r: Error)
    ensures
        r@ == failure_view(start@, rest@),
{
    let mut message = String::new();
    message.append(start);
    message.append(rest);
    assert(message@ =~= start@ + rest@);
    Error::Endpoint(message)
}

/// What came of an outside step: its value, or a failure whose message is `start` and the
/// step's own.
pub fn labelled<T>(outcome: Result<T, String>, start: &str) -> (r: Result<T, Error>)
    ensures
        match outcome {
            Ok(value) => r == Ok::<T, Error>(value),
            Err(e) => r is Err && r->Err_0@ == failure_view(start@, e@),
        },
{
    match outcome {
        Ok(value) => Ok(value),
        Err(e) => Err(failure(start, e.as_str())),
    }
}

} // verus!
