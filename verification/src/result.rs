//! The three-way parse outcome and its composition algebra.
//!
//! One parser step yields exactly one of: success with the produced value and
//! the remaining input, failure with a diagnostic at the position where the
//! parser stopped, or a request for at least `n` more bytes. The consumed
//! count of a failure (recoverable by comparing window lengths) is the sole
//! signal that separates a plain mismatch from a committed, hard error.

use vstd::prelude::*;

use crate::input::Input;

verus! {

/// The outcome of running one parser on one input view.
#[derive(Debug, PartialEq, Eq)]
pub enum ParseResult<'a, T, E> {
    /// The parser matched: the view past what it consumed, and its value.
    Success(Input<'a>, T),
    /// The parser failed: the view at the point of failure, and a diagnostic.
    /// The view equals the parser's starting view when the failure consumed
    /// nothing (a mismatch), and a strictly shorter window otherwise (a
    /// committed error).
    Failure(Input<'a>, E),
    /// The outcome cannot be decided yet; at least this many further bytes
    /// are needed. The hint is always at least 1.
    Incomplete(usize),
}

impl<'a, T, E> ParseResult<'a, T, E> {
    /// Sequencing: feeds a success into `f`; failure and incompleteness
    /// short-circuit unchanged.
    pub fn bind<U, F: FnOnce(Input<'a>, T) -> ParseResult<'a, U, E>>(self, f: F) -> (r:
        ParseResult<'a, U, E>)
        requires
            self matches ParseResult::Success(i, v) ==> call_requires(f, (i, v)),
        ensures
            self matches ParseResult::Success(i, v) ==> call_ensures(f, (i, v), r),
            self matches ParseResult::Failure(i, e)
                ==> r == ParseResult::<'a, U, E>::Failure(i, e),
            self matches ParseResult::Incomplete(n)
                ==> r == ParseResult::<'a, U, E>::Incomplete(n),
    {
        match self {
            ParseResult::Success(i, v) => f(i, v),
            ParseResult::Failure(i, e) => ParseResult::Failure(i, e),
            ParseResult::Incomplete(n) => ParseResult::Incomplete(n),
        }
    }

    /// Mapping: applies `f` to the produced value of a success; failure and
    /// incompleteness pass through unchanged.
    pub fn map<U, F: FnOnce(T) -> U>(self, f: F) -> (r: ParseResult<'a, U, E>)
        requires
            self matches ParseResult::Success(i, v) ==> call_requires(f, (v,)),
        ensures
            self matches ParseResult::Success(i, v)
                ==> (r matches ParseResult::Success(i2, u) && i2 == i && call_ensures(f, (v,), u)),
            self matches ParseResult::Failure(i, e)
                ==> r == ParseResult::<'a, U, E>::Failure(i, e),
            self matches ParseResult::Incomplete(n)
                ==> r == ParseResult::<'a, U, E>::Incomplete(n),
    {
        match self {
            ParseResult::Success(i, v) => ParseResult::Success(i, f(v)),
            ParseResult::Failure(i, e) => ParseResult::Failure(i, e),
            ParseResult::Incomplete(n) => ParseResult::Incomplete(n),
        }
    }

    /// Error mapping: applies `f` to the diagnostic of a failure, keeping the
    /// failure position; success and incompleteness pass through unchanged.
    pub fn map_err<D, F: FnOnce(E) -> D>(self, f: F) -> (r: ParseResult<'a, T, D>)
        requires
            self matches ParseResult::Failure(i, e) ==> call_requires(f, (e,)),
        ensures
            self matches ParseResult::Success(i, v)
                ==> r == ParseResult::<'a, T, D>::Success(i, v),
            self matches ParseResult::Failure(i, e)
                ==> (r matches ParseResult::Failure(i2, d) && i2 == i && call_ensures(f, (e,), d)),
            self matches ParseResult::Incomplete(n)
                ==> r == ParseResult::<'a, T, D>::Incomplete(n),
    {
        match self {
            ParseResult::Success(i, v) => ParseResult::Success(i, v),
            ParseResult::Failure(i, e) => ParseResult::Failure(i, f(e)),
            ParseResult::Incomplete(n) => ParseResult::Incomplete(n),
        }
    }
}

} // verus!
