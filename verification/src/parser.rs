//! The parser capability: a pure function from an input view to a parse
//! outcome, described twice — once at the specification level over byte
//! sequences, once as executable code proved to match it.

use vstd::prelude::*;

use crate::input::Input;
use crate::result::ParseResult;

verus! {

/// The specification-level picture of one parse outcome on an input of
/// known contents: how much was consumed, and what came of it.
pub enum SpecOutcome<V, E> {
    /// Matched: `consumed` bytes were used up and `value` was produced.
    Success { consumed: nat, value: V },
    /// Failed after using up `consumed` bytes. `consumed == 0` is a plain
    /// mismatch; `consumed >= 1` is a committed, hard error.
    Failure { consumed: nat, diag: E },
    /// Cannot be decided before at least `need` further bytes arrive.
    Incomplete { need: nat },
}

/// Every parser keeps its outcome inside the input it was given: it never
/// consumes past the window, and an incompleteness hint is at least 1.
pub open spec fn outcome_wf<V, E>(o: SpecOutcome<V, E>, len: nat) -> bool {
    match o {
        SpecOutcome::Success { consumed, value: _ } => consumed <= len,
        SpecOutcome::Failure { consumed, diag: _ } => consumed <= len,
        SpecOutcome::Incomplete { need } => need >= 1,
    }
}

/// A parser: a deterministic map from (window contents, end-of-input flag)
/// to a parse outcome, with executable code that realises the map.
pub trait Parser: Sized {
    /// The type of values this parser produces.
    type V;

    /// The type of failure diagnostics this parser produces.
    type E;

    /// What this parser does on an input with the given contents and
    /// end-of-input flag.
    spec fn spec_parse(&self, inp: Seq<u8>, eoi: bool) -> SpecOutcome<Self::V, Self::E>;

    /// Every parser's outcome is well-formed on every input.
    proof fn lemma_wf(&self, inp: Seq<u8>, eoi: bool)
        ensures
            outcome_wf(self.spec_parse(inp, eoi), inp.len()),
    ;

    /// Runs the parser on one input view.
    fn parse<'a>(&self, i: Input<'a>) -> (r: ParseResult<'a, Self::V, Self::E>)
        ensures
            res_matches(r, self.spec_parse(i@, i.spec_end_of_input()), i@, i.spec_end_of_input()),
    ;
}

/// A reference to a parser parses as the parser itself does.
impl<P: Parser> Parser for &P {
    type V = P::V;

    type E = P::E;

    open spec fn spec_parse(&self, inp: Seq<u8>, eoi: bool) -> SpecOutcome<P::V, P::E> {
        (*self).spec_parse(inp, eoi)
    }

    proof fn lemma_wf(&self, inp: Seq<u8>, eoi: bool) {
        (*self).lemma_wf(inp, eoi);
    }

    fn parse<'a>(&self, i: Input<'a>) -> (r: ParseResult<'a, P::V, P::E>) {
        (*self).parse(i)
    }
}

/// Relates an executable parse result to a specification outcome for an
/// input with contents `inp` and end-of-input flag `eoi`.
pub open spec fn res_matches<'a, V, E>(
    r: ParseResult<'a, V, E>,
    o: SpecOutcome<V, E>,
    inp: Seq<u8>,
    eoi: bool,
) -> bool {
    match o {
        SpecOutcome::Success { consumed, value } => {
            &&& r matches ParseResult::Success(i2, v)
            &&& v == value
            &&& i2@ == inp.skip(consumed as int)
            &&& i2.spec_end_of_input() == eoi
        },
        SpecOutcome::Failure { consumed, diag } => {
            &&& r matches ParseResult::Failure(i2, d)
            &&& d == diag
            &&& i2@ == inp.skip(consumed as int)
            &&& i2.spec_end_of_input() == eoi
        },
        SpecOutcome::Incomplete { need } => {
            &&& r matches ParseResult::Incomplete(n)
            &&& n as nat == need
        },
    }
}

/// A parser is productive when every success of it consumes at least one
/// byte. The unbounded repetition combinators demand this of their
/// sub-parser: repeating a parser that can succeed on nothing would never
/// come to an end.
pub open spec fn productive<P: Parser>(p: &P) -> bool {
    forall|inp: Seq<u8>, eoi: bool|
        (#[trigger] p.spec_parse(inp, eoi)) matches SpecOutcome::Success { consumed, value: _ }
            ==> consumed >= 1
}

/// A parser is prefix-stable when a decision it reaches — success or
/// failure — stands once taken: re-running it on the same window extended
/// with later-arriving bytes, with any end-of-input flag, reproduces the
/// decision exactly. Only an incomplete outcome may change when more data
/// becomes visible. The streaming driver's grow-and-retry loop is
/// deterministic exactly for such parsers.
pub open spec fn prefix_stable<P: Parser>(p: &P) -> bool {
    forall|inp: Seq<u8>, ext: Seq<u8>, eoi: bool|
        !(p.spec_parse(inp, false) is Incomplete)
            ==> #[trigger] p.spec_parse(inp + ext, eoi) == p.spec_parse(inp, false)
}

} // verus!
