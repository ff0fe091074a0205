//! Matcher parsers: the small building blocks that combinators repeat and
//! compose. Each one is a [`Parser`] whose specification-level behaviour is
//! spelled out byte by byte.

use vstd::prelude::*;

use crate::input::Input;
use crate::parser::{outcome_wf, productive, Parser, SpecOutcome};
use crate::result::ParseResult;

verus! {

/// The diagnostic the matcher parsers produce: a byte was expected and the
/// input held something else (or, for `string`, one byte of the expected
/// run differed).
#[derive(Clone, Copy, Debug, PartialEq, Eq)]
pub enum Diag {
    /// The parser needed this byte next.
    Expected(u8),
}

/// Matches exactly one given byte. See [`token`].
#[derive(Clone, Copy, Debug)]
pub struct Token {
    t: u8,
}

/// A parser that matches exactly the byte `t`, produces it, and consumes
/// it. On any other first byte it fails without consuming; on an empty
/// window it asks for one more byte.
pub fn token(t: u8) -> (p: Token)
    ensures
        p.spec_byte() == t,
        productive(&p),
{
    Token { t }
}

impl Token {
    /// The byte this parser matches.
    pub closed spec fn spec_byte(&self) -> u8 {
        self.t
    }
}

impl Parser for Token {
    type V = u8;

    type E = Diag;

    open spec fn spec_parse(&self, inp: Seq<u8>, eoi: bool) -> SpecOutcome<u8, Diag> {
        if inp.len() == 0 {
            SpecOutcome::Incomplete { need: 1 }
        } else if inp[0] == self.spec_byte() {
            SpecOutcome::Success { consumed: 1, value: self.spec_byte() }
        } else {
            SpecOutcome::Failure { consumed: 0, diag: Diag::Expected(self.spec_byte()) }
        }
    }

    proof fn lemma_wf(&self, inp: Seq<u8>, eoi: bool) {
    }

    fn parse<'a>(&self, i: Input<'a>) -> (r: ParseResult<'a, u8, Diag>) {
        if i.len() == 0 {
            ParseResult::Incomplete(1)
        } else {
            let s = i.slice();
            let b = *vstd::slice::slice_index_get(s, 0);
            if b == self.t {
                ParseResult::Success(i.advance(1), b)
            } else {
                proof {
                    assert(i@.skip(0) =~= i@);
                }
                ParseResult::Failure(i, Diag::Expected(self.t))
            }
        }
    }
}

/// Matches any single byte. See [`any`].
#[derive(Clone, Copy, Debug)]
pub struct Any {
}

/// A parser that consumes and produces the first byte, whatever it is. It
/// never fails; on an empty window it asks for one more byte.
pub fn any() -> (p: Any)
    ensures
        productive(&p),
{
    Any {  }
}

impl Parser for Any {
    type V = u8;

    type E = Diag;

    open spec fn spec_parse(&self, inp: Seq<u8>, eoi: bool) -> SpecOutcome<u8, Diag> {
        if inp.len() == 0 {
            SpecOutcome::Incomplete { need: 1 }
        } else {
            SpecOutcome::Success { consumed: 1, value: inp[0] }
        }
    }

    proof fn lemma_wf(&self, inp: Seq<u8>, eoi: bool) {
    }

    fn parse<'a>(&self, i: Input<'a>) -> (r: ParseResult<'a, u8, Diag>) {
        if i.len() == 0 {
            ParseResult::Incomplete(1)
        } else {
            let b = *vstd::slice::slice_index_get(i.slice(), 0);
            ParseResult::Success(i.advance(1), b)
        }
    }
}

/// What matching an expected byte run against a window comes to: success
/// consuming the whole run, a zero-consumed failure naming the first
/// expected byte that differed, or a request for the bytes still missing.
pub open spec fn str_spec(exp: Seq<u8>, inp: Seq<u8>) -> SpecOutcome<(), Diag>
    decreases exp.len(),
{
    if exp.len() == 0 {
        SpecOutcome::Success { consumed: 0, value: () }
    } else if inp.len() == 0 {
        SpecOutcome::Incomplete { need: exp.len() }
    } else if inp[0] == exp[0] {
        match str_spec(exp.skip(1), inp.skip(1)) {
            SpecOutcome::Success { consumed, value: _ } => SpecOutcome::Success {
                consumed: consumed + 1,
                value: (),
            },
            SpecOutcome::Failure { consumed: _, diag } => SpecOutcome::Failure {
                consumed: 0,
                diag,
            },
            SpecOutcome::Incomplete { need } => SpecOutcome::Incomplete { need },
        }
    } else {
        SpecOutcome::Failure { consumed: 0, diag: Diag::Expected(exp[0]) }
    }
}

/// Matches an exact run of bytes. See [`string`].
#[derive(Clone, Copy, Debug)]
pub struct Str<'e> {
    expected: &'e [u8],
}

/// A parser that matches exactly the bytes of `expected`, in order, and
/// consumes them all. A differing byte within reach makes it fail without
/// consuming; a window that is a proper prefix of `expected` makes it ask
/// for the missing bytes.
pub fn string<'e>(expected: &'e [u8]) -> (p: Str<'e>)
    ensures
        p.spec_expected() == expected@,
        expected@.len() >= 1 ==> productive(&p),
{
    let p = Str { expected };
    proof {
        if expected@.len() >= 1 {
            assert forall|inp: Seq<u8>, eoi: bool|
                ((#[trigger] (&p).spec_parse(inp, eoi)) matches SpecOutcome::Success {
                    consumed,
                    value: _,
                } ==> consumed >= 1) by {
                lemma_str_spec_wf(expected@, inp);
            }
        }
    }
    p
}

impl<'e> Str<'e> {
    /// The byte run this parser matches.
    pub closed spec fn spec_expected(&self) -> Seq<u8> {
        self.expected@
    }
}

impl<'e> Parser for Str<'e> {
    type V = ();

    type E = Diag;

    open spec fn spec_parse(&self, inp: Seq<u8>, eoi: bool) -> SpecOutcome<(), Diag> {
        str_spec(self.spec_expected(), inp)
    }

    proof fn lemma_wf(&self, inp: Seq<u8>, eoi: bool) {
        lemma_str_spec_wf(self.spec_expected(), inp);
    }

    fn parse<'a>(&self, i: Input<'a>) -> (r: ParseResult<'a, (), Diag>)
        decreases self.spec_expected().len(),
    {
        let n = self.expected.len();
        if n == 0 {
            proof {
                assert(i@.skip(0) =~= i@);
            }
            ParseResult::Success(i, ())
        } else if i.len() == 0 {
            ParseResult::Incomplete(n)
        } else {
            let b = *vstd::slice::slice_index_get(i.slice(), 0);
            let e0 = *vstd::slice::slice_index_get(self.expected, 0);
            if b == e0 {
                let tail = Str { expected: vstd::slice::slice_subrange(self.expected, 1, n) };
                proof {
                    assert(tail.spec_expected() =~= self.spec_expected().skip(1));
                }
                match tail.parse(i.advance(1)) {
                    ParseResult::Success(i2, _) => {
                        proof {
                            let c = (i2@.len() - i@.len() + 1) as int;
                            lemma_str_spec_wf(tail.spec_expected(), i@.skip(1));
                            assert forall|c: int| 0 <= c <= i@.skip(1).len() implies i@.skip(1).skip(
                                c,
                            ) =~= i@.skip(1 + c) by {
                            }
                        }
                        ParseResult::Success(i2, ())
                    },
                    ParseResult::Failure(_, d) => {
                        proof {
                            assert(i@.skip(0) =~= i@);
                        }
                        ParseResult::Failure(i, d)
                    },
                    ParseResult::Incomplete(m) => ParseResult::Incomplete(m),
                }
            } else {
                proof {
                    assert(i@.skip(0) =~= i@);
                }
                ParseResult::Failure(i, Diag::Expected(e0))
            }
        }
    }
}

/// Matching a byte run never consumes past the window, never consumes on
/// failure, and asks for at least one byte when undecided.
pub proof fn lemma_str_spec_wf(exp: Seq<u8>, inp: Seq<u8>)
    ensures
        outcome_wf(str_spec(exp, inp), inp.len()),
        str_spec(exp, inp) matches SpecOutcome::Success { consumed, value: _ } ==> consumed
            == exp.len(),
        str_spec(exp, inp) matches SpecOutcome::Failure { consumed, diag: _ } ==> consumed == 0,
    decreases exp.len(),
{
    if exp.len() > 0 && inp.len() > 0 && inp[0] == exp[0] {
        lemma_str_spec_wf(exp.skip(1), inp.skip(1));
    }
}

/// Always fails without consuming. See [`fail`].
#[derive(Debug)]
pub struct Fail<V, E> {
    diag: E,
    marker: core::marker::PhantomData<V>,
}

/// A parser that fails on every input, without consuming, carrying the
/// given diagnostic.
pub fn fail<V, E: Copy>(diag: E) -> (p: Fail<V, E>)
    ensures
        p.spec_diag() == diag,
        productive(&p),
{
    Fail { diag, marker: core::marker::PhantomData }
}

impl<V, E> Fail<V, E> {
    /// The diagnostic this parser fails with.
    pub closed spec fn spec_diag(&self) -> E {
        self.diag
    }
}

impl<V, E: Copy> Parser for Fail<V, E> {
    type V = V;

    type E = E;

    open spec fn spec_parse(&self, inp: Seq<u8>, eoi: bool) -> SpecOutcome<V, E> {
        SpecOutcome::Failure { consumed: 0, diag: self.spec_diag() }
    }

    proof fn lemma_wf(&self, inp: Seq<u8>, eoi: bool) {
    }

    fn parse<'a>(&self, i: Input<'a>) -> (r: ParseResult<'a, V, E>) {
        proof {
            assert(i@.skip(0) =~= i@);
        }
        ParseResult::Failure(i, self.diag)
    }
}

/// Replaces a parser's diagnostic. See [`label`].
#[derive(Debug)]
pub struct Label<P, E> {
    inner: P,
    diag: E,
}

/// A parser that behaves as `inner` does, except that every failure carries
/// `diag` in place of the inner diagnostic. The failure position — and with
/// it the mismatch-versus-committed distinction — is kept.
pub fn label<P: Parser, E: Copy>(inner: P, diag: E) -> (p: Label<P, E>)
    ensures
        p.spec_inner() == inner,
        p.spec_diag() == diag,
{
    Label { inner, diag }
}

impl<P, E> Label<P, E> {
    /// The parser whose failures are relabelled.
    pub closed spec fn spec_inner(&self) -> P {
        self.inner
    }

    /// The diagnostic every failure carries.
    pub closed spec fn spec_diag(&self) -> E {
        self.diag
    }
}

impl<P: Parser, E: Copy> Parser for Label<P, E> {
    type V = P::V;

    type E = E;

    open spec fn spec_parse(&self, inp: Seq<u8>, eoi: bool) -> SpecOutcome<P::V, E> {
        match self.spec_inner().spec_parse(inp, eoi) {
            SpecOutcome::Success { consumed, value } => SpecOutcome::Success { consumed, value },
            SpecOutcome::Failure { consumed, diag: _ } => SpecOutcome::Failure {
                consumed,
                diag: self.spec_diag(),
            },
            SpecOutcome::Incomplete { need } => SpecOutcome::Incomplete { need },
        }
    }

    proof fn lemma_wf(&self, inp: Seq<u8>, eoi: bool) {
        self.spec_inner().lemma_wf(inp, eoi);
    }

    fn parse<'a>(&self, i: Input<'a>) -> (r: ParseResult<'a, P::V, E>) {
        match self.inner.parse(i) {
            ParseResult::Success(i2, v) => ParseResult::Success(i2, v),
            ParseResult::Failure(i2, _) => ParseResult::Failure(i2, self.diag),
            ParseResult::Incomplete(n) => ParseResult::Incomplete(n),
        }
    }
}

} // verus!
