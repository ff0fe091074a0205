//! The user-facing combinators. Repetition ones are thin readings of the
//! bounded engine in [`crate::bounded`]; the rest compose outcomes
//! directly, following one discipline throughout: a failure that consumed
//! nothing is a plain mismatch and may be absorbed, a failure that
//! consumed input is a committed error and always propagates, and an
//! incomplete outcome propagates whenever more data may still arrive.

use vstd::prelude::*;

use crate::bounded;
use crate::bounded::{out_pre, run_bounded, run_till, Bound, Discard};
use crate::input::Input;
use crate::parser::{productive, res_matches, Parser, SpecOutcome};
use crate::result::ParseResult;

verus! {

/// Relates a collecting combinator's executable result to its
/// specification outcome: on success the produced array holds exactly the
/// recorded matches and the view has advanced past what they consumed.
pub open spec fn collected_matches<'a, V, E>(
    r: ParseResult<'a, Vec<V>, E>,
    o: SpecOutcome<Seq<V>, E>,
    inp: Seq<u8>,
    eoi: bool,
) -> bool {
    match o {
        SpecOutcome::Success { consumed, value } => {
            &&& r matches ParseResult::Success(i2, vec)
            &&& vec@ == value
            &&& i2@ == inp.skip(consumed as int)
            &&& i2.spec_end_of_input() == eoi
        },
        SpecOutcome::Failure { consumed, diag } => {
            &&& r matches ParseResult::Failure(i2, d)
            &&& d == diag
            &&& i2@ == inp.skip(consumed as int)
            &&& i2.spec_end_of_input() == eoi
        },
        SpecOutcome::Incomplete { need } => {
            &&& r matches ParseResult::Incomplete(n)
            &&& n as nat == need
        },
    }
}

/// As [`collected_matches`], for the discarding combinators: the matches
/// are dropped, only the consumed input and the stop condition count.
pub open spec fn skipped_matches<'a, V, E>(
    r: ParseResult<'a, (), E>,
    o: SpecOutcome<Seq<V>, E>,
    inp: Seq<u8>,
    eoi: bool,
) -> bool {
    match o {
        SpecOutcome::Success { consumed, value: _ } => {
            &&& r matches ParseResult::Success(i2, v)
            &&& i2@ == inp.skip(consumed as int)
            &&& i2.spec_end_of_input() == eoi
        },
        SpecOutcome::Failure { consumed, diag } => {
            &&& r matches ParseResult::Failure(i2, d)
            &&& d == diag
            &&& i2@ == inp.skip(consumed as int)
            &&& i2.spec_end_of_input() == eoi
        },
        SpecOutcome::Incomplete { need } => {
            &&& r matches ParseResult::Incomplete(n)
            &&& n as nat == need
        },
    }
}

/// Applies `p` exactly `num` times, collecting the matches. Fewer
/// matches than `num` propagate the failure or incompleteness that cut
/// the repetition short.
pub fn count<'a, P: Parser>(i: Input<'a>, num: usize, p: &P) -> (r: ParseResult<
    'a,
    Vec<P::V>,
    P::E,
>)
    ensures
        collected_matches(
            r,
            run_bounded(
                p,
                num as nat,
                Some(num as nat),
                i@,
                i.spec_end_of_input(),
            ),
            i@,
            i.spec_end_of_input(),
        ),
{
    let r = bounded::many(i, Bound { min: num, max: Some(num) }, p, Vec::new());
    proof {
        if let SpecOutcome::Success { consumed, value } = run_bounded(
            p,
            num as nat,
            Some(num as nat),
            i@,
            i.spec_end_of_input(),
        ) {
            assert(Seq::<P::V>::empty() + value =~= value);
        }
    }
    r
}

/// Applies `p` zero or more times, collecting the matches, until it no
/// longer matches. `p` must be productive: a sub-parser that could succeed
/// on nothing would be repeated without end.
pub fn many<'a, P: Parser>(i: Input<'a>, p: &P) -> (r: ParseResult<'a, Vec<P::V>, P::E>)
    requires
        productive(p),
    ensures
        collected_matches(
            r,
            run_bounded(p, 0nat, None, i@, i.spec_end_of_input()),
            i@,
            i.spec_end_of_input(),
        ),
{
    let r = bounded::many(i, Bound { min: 0, max: None }, p, Vec::new());
    proof {
        if let SpecOutcome::Success { consumed, value } = run_bounded(
            p,
            0nat,
            None,
            i@,
            i.spec_end_of_input(),
        ) {
            assert(Seq::<P::V>::empty() + value =~= value);
        }
    }
    r
}

/// Applies `p` one or more times, collecting the matches. With no match
/// at all, the first failure or incompleteness propagates. `p` must be
/// productive.
pub fn many1<'a, P: Parser>(i: Input<'a>, p: &P) -> (r: ParseResult<'a, Vec<P::V>, P::E>)
    requires
        productive(p),
    ensures
        collected_matches(
            r,
            run_bounded(p, 1nat, None, i@, i.spec_end_of_input()),
            i@,
            i.spec_end_of_input(),
        ),
{
    let r = bounded::many(i, Bound { min: 1, max: None }, p, Vec::new());
    proof {
        if let SpecOutcome::Success { consumed, value } = run_bounded(
            p,
            1nat,
            None,
            i@,
            i.spec_end_of_input(),
        ) {
            assert(Seq::<P::V>::empty() + value =~= value);
        }
    }
    r
}

/// Applies `p` zero or more times, discarding the matches. `p` must be
/// productive.
pub fn skip_many<'a, P: Parser>(i: Input<'a>, p: &P) -> (r: ParseResult<'a, (), P::E>)
    requires
        productive(p),
    ensures
        skipped_matches(
            r,
            run_bounded(p, 0nat, None, i@, i.spec_end_of_input()),
            i@,
            i.spec_end_of_input(),
        ),
{
    match bounded::many(i, Bound { min: 0, max: None }, p, Discard::new()) {
        ParseResult::Success(i2, _) => ParseResult::Success(i2, ()),
        ParseResult::Failure(i2, d) => ParseResult::Failure(i2, d),
        ParseResult::Incomplete(n) => ParseResult::Incomplete(n),
    }
}

/// Applies `p` one or more times, discarding the matches. With no match
/// at all, the first failure or incompleteness propagates. `p` must be
/// productive.
pub fn skip_many1<'a, P: Parser>(i: Input<'a>, p: &P) -> (r: ParseResult<'a, (), P::E>)
    requires
        productive(p),
    ensures
        skipped_matches(
            r,
            run_bounded(p, 1nat, None, i@, i.spec_end_of_input()),
            i@,
            i.spec_end_of_input(),
        ),
{
    match bounded::many(i, Bound { min: 1, max: None }, p, Discard::new()) {
        ParseResult::Success(i2, _) => ParseResult::Success(i2, ()),
        ParseResult::Failure(i2, d) => ParseResult::Failure(i2, d),
        ParseResult::Incomplete(n) => ParseResult::Incomplete(n),
    }
}

/// Applies `p` repeatedly until `end` matches, collecting `p`'s matches.
/// The end match is consumed but kept out of the collection. `p` must be
/// productive.
pub fn many_till<'a, P: Parser, Q: Parser<E = P::E>>(i: Input<'a>, p: &P, end: &Q) -> (r:
    ParseResult<'a, Vec<P::V>, P::E>)
    requires
        productive(p),
    ensures
        collected_matches(
            r,
            run_till(p, end, i@, i.spec_end_of_input()),
            i@,
            i.spec_end_of_input(),
        ),
{
    let r = bounded::many_till(i, p, end, Vec::new());
    proof {
        if let SpecOutcome::Success { consumed, value } = run_till(
            p,
            end,
            i@,
            i.spec_end_of_input(),
        ) {
            assert(Seq::<P::V>::empty() + value =~= value);
        }
    }
    r
}

/// A separator parse followed by an item parse, taken as one atomic step:
/// the combined step of every repetition round of `sep_by` after the
/// first. Its consumed count is the two counts together, so an item
/// mismatch after a matched separator is a committed failure of the step.
pub struct SepStep<S, P> {
    /// Parses and discards the separator.
    pub sep: S,
    /// Parses the item that must follow it.
    pub item: P,
}

impl<S: Parser, P: Parser<E = S::E>> Parser for SepStep<S, P> {
    type V = P::V;

    type E = P::E;

    open spec fn spec_parse(&self, inp: Seq<u8>, eoi: bool) -> SpecOutcome<P::V, P::E> {
        match self.sep.spec_parse(inp, eoi) {
            SpecOutcome::Success { consumed: n, value: _ } => {
                if n <= inp.len() {
                    match self.item.spec_parse(inp.skip(n as int), eoi) {
                        SpecOutcome::Success { consumed: m, value } => SpecOutcome::Success {
                            consumed: n + m,
                            value,
                        },
                        SpecOutcome::Failure { consumed: c, diag } => SpecOutcome::Failure {
                            consumed: n + c,
                            diag,
                        },
                        SpecOutcome::Incomplete { need } => SpecOutcome::Incomplete { need },
                    }
                } else {
                    // never reached: a parser's success stays within the window
                    SpecOutcome::Incomplete { need: 1 }
                }
            },
            SpecOutcome::Failure { consumed, diag } => SpecOutcome::Failure { consumed, diag },
            SpecOutcome::Incomplete { need } => SpecOutcome::Incomplete { need },
        }
    }

    proof fn lemma_wf(&self, inp: Seq<u8>, eoi: bool) {
        self.sep.lemma_wf(inp, eoi);
        if let SpecOutcome::Success { consumed: n, value: _ } = self.sep.spec_parse(inp, eoi) {
            if n <= inp.len() {
                self.item.lemma_wf(inp.skip(n as int), eoi);
            }
        }
    }

    fn parse<'a>(&self, i: Input<'a>) -> (r: ParseResult<'a, P::V, P::E>) {
        proof {
            self.sep.lemma_wf(i@, i.spec_end_of_input());
            self.item.lemma_wf(i@, i.spec_end_of_input());
        }
        match self.sep.parse(i) {
            ParseResult::Success(i1, _) => {
                proof {
                    let n = self.sep.spec_parse(i@, i.spec_end_of_input())->Success_consumed;
                    self.item.lemma_wf(i1@, i.spec_end_of_input());
                    assert forall|c: int| 0 <= c <= i1@.len() implies i@.skip(n as int).skip(c)
                        =~= i@.skip(n + c) by {
                    }
                }
                match self.item.parse(i1) {
                    ParseResult::Success(i2, v) => ParseResult::Success(i2, v),
                    ParseResult::Failure(i2, d) => ParseResult::Failure(i2, d),
                    ParseResult::Incomplete(m) => ParseResult::Incomplete(m),
                }
            },
            ParseResult::Failure(i1, d) => ParseResult::Failure(i1, d),
            ParseResult::Incomplete(n) => ParseResult::Incomplete(n),
        }
    }
}

/// Rounds past the first still owed when at least `min` matches are owed
/// in all.
pub open spec fn rest_min(min: nat) -> nat {
    if min == 0 {
        0nat
    } else {
        (min - 1) as nat
    }
}

/// What repeating `p` separated by `sep`, with at least `min` matches,
/// comes to. The first round is `p` alone; every later round is the
/// atomic separator-then-item step, run by the bounded engine. A first
/// round that mismatches without consuming stops the repetition (empty
/// when `min` is 0); its committed failures propagate; its incompleteness
/// propagates while data may still arrive and counts as a mismatch at end
/// of input. A trailing separator with no item after it is left standing,
/// unconsumed, in the remaining input: the engine stops *before* the
/// step that could not be completed.
pub open spec fn run_sep<P: Parser, S: Parser<E = P::E>>(
    p: &P,
    sep: &S,
    min: nat,
    inp: Seq<u8>,
    eoi: bool,
) -> SpecOutcome<Seq<P::V>, P::E> {
    match p.spec_parse(inp, eoi) {
        SpecOutcome::Success { consumed: n, value: v } => {
            if 1 <= n <= inp.len() {
                out_pre(
                    n,
                    seq![v],
                    run_bounded(
                        &SepStep { sep, item: p },
                        rest_min(min),
                        None,
                        inp.skip(n as int),
                        eoi,
                    ),
                )
            } else {
                // never reached: separated repetition demands a productive
                // item parser
                SpecOutcome::Success { consumed: 0, value: Seq::empty() }
            }
        },
        SpecOutcome::Failure { consumed, diag } => {
            if consumed == 0 && min == 0 {
                SpecOutcome::Success { consumed: 0, value: Seq::empty() }
            } else {
                SpecOutcome::Failure { consumed, diag }
            }
        },
        SpecOutcome::Incomplete { need } => {
            if eoi && min == 0 {
                SpecOutcome::Success { consumed: 0, value: Seq::empty() }
            } else {
                SpecOutcome::Incomplete { need }
            }
        },
    }
}

/// Runs the separated repetition with lower bound `min`: the shared body
/// of [`sep_by`] and [`sep_by1`].
fn sep_engine<'a, P: Parser, S: Parser<E = P::E>>(i: Input<'a>, min: usize, p: &P, sep: &S) -> (r:
    ParseResult<'a, Vec<P::V>, P::E>)
    requires
        productive(p),
    ensures
        collected_matches(
            r,
            run_sep(p, sep, min as nat, i@, i.spec_end_of_input()),
            i@,
            i.spec_end_of_input(),
        ),
{
    let ghost eoi = i.spec_end_of_input();
    proof {
        p.lemma_wf(i@, eoi);
    }
    match p.parse(i) {
        ParseResult::Success(i1, v) => {
            let mut acc: Vec<P::V> = Vec::new();
            acc.push(v);
            let step = SepStep { sep, item: p };
            proof {
                assert forall|inp: Seq<u8>, e2: bool|
                    ((#[trigger] step.spec_parse(inp, e2)) matches SpecOutcome::Success {
                        consumed,
                        value: _,
                    } ==> consumed >= 1) by {
                    if let SpecOutcome::Success { consumed: n, value: _ } = step.sep.spec_parse(
                        inp,
                        e2,
                    ) {
                        if n <= inp.len() {
                            assert(step.item.spec_parse(inp.skip(n as int), e2) == p.spec_parse(
                                inp.skip(n as int),
                                e2,
                            ));
                        }
                    }
                }
                assert(productive(&step));
            }
            let rmin = if min == 0 {
                0
            } else {
                min - 1
            };
            let r = bounded::many(i1, Bound { min: rmin, max: None }, &step, acc);
            proof {
                let n = p.spec_parse(i@, eoi)->Success_consumed;
                let tail = run_bounded(&step, rest_min(min as nat), None, i1@, eoi);
                crate::bounded::lemma_run_bounded_wf(&step, rest_min(min as nat), None, i1@, eoi);
                assert forall|c: int| 0 <= c <= i1@.len() implies i@.skip(n as int).skip(c)
                    =~= i@.skip(n + c) by {
                }
                match tail {
                    SpecOutcome::Success { consumed, value } => {
                        assert(seq![v] + value =~= Seq::<P::V>::empty().push(v) + value);
                    },
                    SpecOutcome::Failure { consumed, diag } => {},
                    SpecOutcome::Incomplete { need } => {},
                }
            }
            r
        },
        ParseResult::Failure(i1, d) => {
            if i1.len() == i.len() && min == 0 {
                proof {
                    assert(i@.skip(0) =~= i@);
                }
                ParseResult::Success(i, Vec::new())
            } else {
                ParseResult::Failure(i1, d)
            }
        },
        ParseResult::Incomplete(n) => {
            if i.is_end_of_input() && min == 0 {
                proof {
                    assert(i@.skip(0) =~= i@);
                }
                ParseResult::Success(i, Vec::new())
            } else {
                ParseResult::Incomplete(n)
            }
        },
    }
}

/// Applies `p` zero or more times, separated by `sep`, collecting `p`'s
/// matches. A trailing separator with no item after it stays unconsumed
/// in the remaining input. `p` must be productive.
pub fn sep_by<'a, P: Parser, S: Parser<E = P::E>>(i: Input<'a>, p: &P, sep: &S) -> (r: ParseResult<
    'a,
    Vec<P::V>,
    P::E,
>)
    requires
        productive(p),
    ensures
        collected_matches(
            r,
            run_sep(p, sep, 0nat, i@, i.spec_end_of_input()),
            i@,
            i.spec_end_of_input(),
        ),
{
    sep_engine(i, 0, p, sep)
}

/// Applies `p` one or more times, separated by `sep`, collecting `p`'s
/// matches. With no match at all, the first round's failure or
/// incompleteness propagates. A trailing separator with no item after it
/// stays unconsumed in the remaining input. `p` must be productive.
pub fn sep_by1<'a, P: Parser, S: Parser<E = P::E>>(i: Input<'a>, p: &P, sep: &S) -> (r: ParseResult<
    'a,
    Vec<P::V>,
    P::E,
>)
    requires
        productive(p),
    ensures
        collected_matches(
            r,
            run_sep(p, sep, 1nat, i@, i.spec_end_of_input()),
            i@,
            i.spec_end_of_input(),
        ),
{
    sep_engine(i, 1, p, sep)
}

/// What trying `p` and falling back to `q` comes to: `p`'s success stands;
/// a failure of `p` that consumed nothing hands the original input to `q`;
/// a failure of `p` that consumed input is committed and stands as it is;
/// an incomplete `p` propagates, since neither branch can be settled
/// before more data arrives.
pub open spec fn or_spec<P: Parser, Q: Parser<V = P::V, E = P::E>>(
    p: &P,
    q: &Q,
    inp: Seq<u8>,
    eoi: bool,
) -> SpecOutcome<P::V, P::E> {
    match p.spec_parse(inp, eoi) {
        SpecOutcome::Success { consumed, value } => SpecOutcome::Success { consumed, value },
        SpecOutcome::Failure { consumed, diag } => {
            if consumed == 0 {
                q.spec_parse(inp, eoi)
            } else {
                SpecOutcome::Failure { consumed, diag }
            }
        },
        SpecOutcome::Incomplete { need } => SpecOutcome::Incomplete { need },
    }
}

/// Tries `p`; when `p` fails without consuming, tries `q` on the original
/// input instead. A failure of `p` that consumed input is a committed
/// error and propagates without `q` being tried.
pub fn or<'a, P: Parser, Q: Parser<V = P::V, E = P::E>>(i: Input<'a>, p: &P, q: &Q) -> (r:
    ParseResult<'a, P::V, P::E>)
    ensures
        res_matches(r, or_spec(p, q, i@, i.spec_end_of_input()), i@, i.spec_end_of_input()),
{
    proof {
        p.lemma_wf(i@, i.spec_end_of_input());
    }
    match p.parse(i) {
        ParseResult::Success(i2, v) => ParseResult::Success(i2, v),
        ParseResult::Failure(i2, d) => {
            if i2.len() == i.len() {
                q.parse(i)
            } else {
                ParseResult::Failure(i2, d)
            }
        },
        ParseResult::Incomplete(n) => ParseResult::Incomplete(n),
    }
}

/// What trying `p` with a fallback value comes to: as [`or_spec`], with
/// the fallback succeeding on nothing in place of a second parser.
pub open spec fn option_spec<P: Parser>(p: &P, default: P::V, inp: Seq<u8>, eoi: bool) -> SpecOutcome<
    P::V,
    P::E,
> {
    match p.spec_parse(inp, eoi) {
        SpecOutcome::Success { consumed, value } => SpecOutcome::Success { consumed, value },
        SpecOutcome::Failure { consumed, diag } => {
            if consumed == 0 {
                SpecOutcome::Success { consumed: 0, value: default }
            } else {
                SpecOutcome::Failure { consumed, diag }
            }
        },
        SpecOutcome::Incomplete { need } => SpecOutcome::Incomplete { need },
    }
}

/// Tries `p`; when `p` fails without consuming, succeeds with `default`
/// against the original input instead. A failure of `p` that consumed
/// input is a committed error and propagates.
pub fn option<'a, P: Parser>(i: Input<'a>, p: &P, default: P::V) -> (r: ParseResult<
    'a,
    P::V,
    P::E,
>)
    ensures
        res_matches(r, option_spec(p, default, i@, i.spec_end_of_input()), i@, i.spec_end_of_input()),
{
    proof {
        p.lemma_wf(i@, i.spec_end_of_input());
    }
    match p.parse(i) {
        ParseResult::Success(i2, v) => ParseResult::Success(i2, v),
        ParseResult::Failure(i2, d) => {
            if i2.len() == i.len() {
                proof {
                    assert(i@.skip(0) =~= i@);
                }
                ParseResult::Success(i, default)
            } else {
                ParseResult::Failure(i2, d)
            }
        },
        ParseResult::Incomplete(n) => ParseResult::Incomplete(n),
    }
}

/// Applies `p` without consuming anything: whatever `p` decides, the
/// returned view is the original one. `p`'s value or diagnostic is kept;
/// an incomplete `p` propagates as it stands.
pub fn look_ahead<'a, P: Parser>(i: Input<'a>, p: &P) -> (r: ParseResult<'a, P::V, P::E>)
    ensures
        p.spec_parse(i@, i.spec_end_of_input()) matches SpecOutcome::Success { consumed, value }
            ==> r == ParseResult::<'a, P::V, P::E>::Success(i, value),
        p.spec_parse(i@, i.spec_end_of_input()) matches SpecOutcome::Failure { consumed, diag }
            ==> r == ParseResult::<'a, P::V, P::E>::Failure(i, diag),
        p.spec_parse(i@, i.spec_end_of_input()) matches SpecOutcome::Incomplete { need } ==> (
        r matches ParseResult::Incomplete(n) && n as nat == need),
{
    match p.parse(i) {
        ParseResult::Success(_, v) => ParseResult::Success(i, v),
        ParseResult::Failure(_, d) => ParseResult::Failure(i, d),
        ParseResult::Incomplete(n) => ParseResult::Incomplete(n),
    }
}

/// Applies `p` and returns, beside `p`'s value, the exact span of bytes
/// that `p` consumed. The span's length always equals the consumed count;
/// failure and incompleteness propagate unchanged.
pub fn matched_by<'a, P: Parser>(i: Input<'a>, p: &P) -> (r: ParseResult<
    'a,
    (&'a [u8], P::V),
    P::E,
>)
    ensures
        p.spec_parse(i@, i.spec_end_of_input()) matches SpecOutcome::Success { consumed, value }
            ==> {
            &&& r matches ParseResult::Success(i2, sv)
            &&& sv.1 == value
            &&& sv.0@ == i@.take(consumed as int)
            &&& sv.0@.len() == consumed
            &&& i2@ == i@.skip(consumed as int)
            &&& i2.spec_end_of_input() == i.spec_end_of_input()
        },
        p.spec_parse(i@, i.spec_end_of_input()) matches SpecOutcome::Failure { consumed, diag }
            ==> {
            &&& r matches ParseResult::Failure(i2, d)
            &&& d == diag
            &&& i2@ == i@.skip(consumed as int)
            &&& i2.spec_end_of_input() == i.spec_end_of_input()
        },
        p.spec_parse(i@, i.spec_end_of_input()) matches SpecOutcome::Incomplete { need } ==> (
        r matches ParseResult::Incomplete(n) && n as nat == need),
{
    proof {
        p.lemma_wf(i@, i.spec_end_of_input());
    }
    let before = i.len();
    match p.parse(i) {
        ParseResult::Success(i2, v) => {
            let diff = before - i2.len();
            let span = i.prefix(diff);
            ParseResult::Success(i2, (span, v))
        },
        ParseResult::Failure(i2, d) => ParseResult::Failure(i2, d),
        ParseResult::Incomplete(n) => ParseResult::Incomplete(n),
    }
}

} // verus!
