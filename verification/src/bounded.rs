//! The bounded repetition engine: one algorithm, parameterized by a
//! repetition-count range and an accumulation policy, that underlies every
//! "apply this sub-parser some number of times" combinator.
//!
//! Each round the engine stops once the upper bound is reached, and
//! otherwise runs the sub-parser: a success is recorded and the view
//! advances; a failure that consumed nothing is the ordinary "no more
//! matches" signal and stops the loop; a failure that consumed input is a
//! committed error and propagates untouched; an incomplete outcome
//! propagates while more data may still arrive, and counts as "no more
//! matches" once the view is at end of input. A stopped loop succeeds when
//! at least the lower bound many matches were recorded, and otherwise
//! reports what stopped it.

use vstd::prelude::*;

use crate::input::Input;
use crate::parser::{productive, Parser, SpecOutcome};
use crate::result::ParseResult;

verus! {

/// A repetition-count range: at least `min` matches, and at most `max`
/// when it is `Some`.
#[derive(Clone, Copy, Debug)]
pub struct Bound {
    /// The engine succeeds only with at least this many matches (unless the
    /// upper bound cuts the loop short first).
    pub min: usize,
    /// With `Some(m)`, the engine never runs the sub-parser more than `m`
    /// times; `None` leaves the repetition unbounded above.
    pub max: Option<usize>,
}

/// What ended a repetition loop that did not end in a hard error.
pub enum Stop<E> {
    /// The sub-parser failed without consuming: the ordinary "no further
    /// match here" signal.
    Mismatch { diag: E },
    /// The sub-parser asked for more data, but the view is at end of input,
    /// so none will come.
    AtEnd { need: nat },
    /// The upper repetition bound was reached.
    MaxHit,
}

/// The raw outcome of driving the repetition loop, before the lower bound
/// is taken into account.
pub enum RunOut<V, E> {
    /// The loop ended: this much was consumed by the recorded matches, in
    /// order, and this is what ended it.
    Stopped { consumed: nat, values: Seq<V>, stop: Stop<E> },
    /// The sub-parser failed after consuming input: a committed error,
    /// counted from the start of the repetition.
    Hard { consumed: nat, diag: E },
    /// The sub-parser needs more data and more may still arrive.
    More { need: nat },
}

/// Accounts for `n` consumed bytes and the matches `vs` recorded before
/// the rest of a run.
pub open spec fn pre_cons<V, E>(n: nat, vs: Seq<V>, out: RunOut<V, E>) -> RunOut<V, E> {
    match out {
        RunOut::Stopped { consumed, values, stop } => RunOut::Stopped {
            consumed: n + consumed,
            values: vs + values,
            stop,
        },
        RunOut::Hard { consumed, diag } => RunOut::Hard { consumed: n + consumed, diag },
        RunOut::More { need } => RunOut::More { need },
    }
}

/// One round of repetition used up: an upper bound of `m` leaves `m - 1`.
pub open spec fn dec_max(max: Option<nat>) -> Option<nat>
    recommends
        max != Some(0nat),
{
    match max {
        Some(m) => Some((m - 1) as nat),
        None => None,
    }
}

/// Termination fuel for the recursion: one more than the rounds left, or
/// none when the repetition is unbounded (then every round must consume).
pub open spec fn max_fuel(max: Option<nat>) -> nat {
    match max {
        Some(m) => m + 1,
        None => 0,
    }
}

/// The repetition loop itself, as a recursion over the window: what
/// repeating `p` with at most `max` rounds does to an input. A sub-parser
/// success that consumes nothing is only meaningful under a finite bound;
/// an unbounded repetition demands a productive sub-parser, and the
/// corresponding branch here is never reached for one.
pub open spec fn engine_run<P: Parser>(p: &P, max: Option<nat>, inp: Seq<u8>, eoi: bool) -> RunOut<
    P::V,
    P::E,
>
    decreases inp.len(), max_fuel(max),
{
    if max == Some(0nat) {
        RunOut::Stopped { consumed: 0, values: Seq::empty(), stop: Stop::MaxHit }
    } else {
        match p.spec_parse(inp, eoi) {
            SpecOutcome::Success { consumed, value } => {
                if 1 <= consumed <= inp.len() {
                    pre_cons(
                        consumed,
                        seq![value],
                        engine_run(p, dec_max(max), inp.skip(consumed as int), eoi),
                    )
                } else if consumed == 0 && max is Some {
                    pre_cons(0, seq![value], engine_run(p, dec_max(max), inp, eoi))
                } else {
                    // never reached: a parser's success stays within the
                    // window, and an unbounded repetition requires a
                    // productive sub-parser
                    RunOut::Stopped { consumed: 0, values: Seq::empty(), stop: Stop::MaxHit }
                }
            },
            SpecOutcome::Failure { consumed, diag } => {
                if consumed == 0 {
                    RunOut::Stopped { consumed: 0, values: Seq::empty(), stop: Stop::Mismatch { diag } }
                } else {
                    RunOut::Hard { consumed, diag }
                }
            },
            SpecOutcome::Incomplete { need } => {
                if eoi {
                    RunOut::Stopped { consumed: 0, values: Seq::empty(), stop: Stop::AtEnd { need } }
                } else {
                    RunOut::More { need }
                }
            },
        }
    }
}

/// What the bounded engine returns: the loop's raw outcome, read under the
/// lower bound `min`. A loop cut short by the upper bound succeeds as it
/// stands; one stopped by a mismatch or by end-of-input succeeds when at
/// least `min` matches were recorded and otherwise propagates the signal
/// that stopped it; a committed error and a still-satisfiable request for
/// more data propagate untouched.
pub open spec fn run_bounded<P: Parser>(
    p: &P,
    min: nat,
    max: Option<nat>,
    inp: Seq<u8>,
    eoi: bool,
) -> SpecOutcome<Seq<P::V>, P::E> {
    match engine_run(p, max, inp, eoi) {
        RunOut::Stopped { consumed, values, stop } => match stop {
            Stop::MaxHit => SpecOutcome::Success { consumed, value: values },
            Stop::Mismatch { diag } => if values.len() >= min {
                SpecOutcome::Success { consumed, value: values }
            } else {
                SpecOutcome::Failure { consumed, diag }
            },
            Stop::AtEnd { need } => if values.len() >= min {
                SpecOutcome::Success { consumed, value: values }
            } else {
                SpecOutcome::Incomplete { need }
            },
        },
        RunOut::Hard { consumed, diag } => SpecOutcome::Failure { consumed, diag },
        RunOut::More { need } => SpecOutcome::Incomplete { need },
    }
}

/// The repetition loop never consumes past the window, and an
/// incompleteness hint it reports is at least 1.
pub proof fn lemma_engine_run_wf<P: Parser>(p: &P, max: Option<nat>, inp: Seq<u8>, eoi: bool)
    ensures
        engine_run(p, max, inp, eoi) matches RunOut::Stopped { consumed, values: _, stop: _ }
            ==> consumed <= inp.len(),
        engine_run(p, max, inp, eoi) matches RunOut::Hard { consumed, diag: _ } ==> consumed
            <= inp.len(),
        engine_run(p, max, inp, eoi) matches RunOut::More { need } ==> need >= 1,
        engine_run(p, max, inp, eoi) matches RunOut::Stopped {
            consumed: _,
            values: _,
            stop: Stop::AtEnd { need },
        } ==> need >= 1,
    decreases inp.len(), max_fuel(max),
{
    if max != Some(0nat) {
        p.lemma_wf(inp, eoi);
        match p.spec_parse(inp, eoi) {
            SpecOutcome::Success { consumed, value: _ } => {
                if 1 <= consumed <= inp.len() {
                    lemma_engine_run_wf(p, dec_max(max), inp.skip(consumed as int), eoi);
                } else if consumed == 0 && max is Some {
                    lemma_engine_run_wf(p, dec_max(max), inp, eoi);
                }
            },
            SpecOutcome::Failure { consumed, diag: _ } => {},
            SpecOutcome::Incomplete { need } => {},
        }
    }
}

/// The bounded engine's outcome is well-formed on every input: it never
/// consumes past the window, and an incompleteness hint is at least 1.
pub proof fn lemma_run_bounded_wf<P: Parser>(
    p: &P,
    min: nat,
    max: Option<nat>,
    inp: Seq<u8>,
    eoi: bool,
)
    ensures
        crate::parser::outcome_wf(run_bounded(p, min, max, inp, eoi), inp.len()),
{
    lemma_engine_run_wf(p, max, inp, eoi);
}

/// An accumulation policy: something the engine can record each match
/// into. Its model is the sequence of everything recorded so far.
pub trait Accum<V>: Sized {
    /// The matches recorded so far, in order.
    spec fn model(&self) -> Seq<V>;

    /// Records one more match.
    fn push_item(&mut self, v: V)
        ensures
            final(self).model() == old(self).model().push(v),
    ;
}

/// Collecting into a dynamic array records every match.
impl<V> Accum<V> for Vec<V> {
    open spec fn model(&self) -> Seq<V> {
        self@
    }

    fn push_item(&mut self, v: V) {
        self.push(v);
    }
}

/// The discarding policy: records nothing at run time. The `skip` family
/// repeats for effect only, so nothing needs to be kept.
pub struct Discard<V> {
    items: Ghost<Seq<V>>,
}

impl<V> Discard<V> {
    /// A discarding accumulator with nothing recorded yet.
    pub fn new() -> (d: Discard<V>)
        ensures
            d.model() == Seq::<V>::empty(),
    {
        Discard { items: Ghost(Seq::empty()) }
    }
}

impl<V> Accum<V> for Discard<V> {
    closed spec fn model(&self) -> Seq<V> {
        self.items@
    }

    fn push_item(&mut self, v: V) {
        proof {
            self.items@ = self.items@.push(v);
        }
    }
}

/// Relates the engine's executable result to its specification outcome.
/// On success the accumulator holds what it held before plus the recorded
/// matches, and the returned view is the input advanced past what the
/// matches consumed.
pub open spec fn engine_res_matches<'a, V, E, A: Accum<V>>(
    r: ParseResult<'a, A, E>,
    o: SpecOutcome<Seq<V>, E>,
    base: Seq<V>,
    inp: Seq<u8>,
    eoi: bool,
) -> bool {
    match o {
        SpecOutcome::Success { consumed, value } => {
            &&& r matches ParseResult::Success(i2, a)
            &&& a.model() == base + value
            &&& i2@ == inp.skip(consumed as int)
            &&& i2.spec_end_of_input() == eoi
        },
        SpecOutcome::Failure { consumed, diag } => {
            &&& r matches ParseResult::Failure(i2, d)
            &&& d == diag
            &&& i2@ == inp.skip(consumed as int)
            &&& i2.spec_end_of_input() == eoi
        },
        SpecOutcome::Incomplete { need } => {
            &&& r matches ParseResult::Incomplete(n)
            &&& n as nat == need
        },
    }
}

/// Loop-termination measure: the rounds left under a finite upper bound.
pub open spec fn rounds_left(max: Option<usize>, cnt: usize) -> int {
    match max {
        Some(m) => m - cnt,
        None => 0,
    }
}

/// The upper bound, read at the specification level.
pub open spec fn max_view(max: Option<usize>) -> Option<nat> {
    match max {
        Some(m) => Some(m as nat),
        None => None,
    }
}

/// Rounds left under the bound `max` after `cnt` of them are done.
pub open spec fn left_view(max: Option<usize>, cnt: usize) -> Option<nat> {
    match max {
        Some(m) => Some((m - cnt) as nat),
        None => None,
    }
}

/// Runs the sub-parser `p` between `bound.min` and `bound.max` times from
/// the view `i`, recording each match into `acc`. This is the one
/// executable repetition loop; every repetition combinator is a reading of
/// its outcome.
#[verifier::loop_isolation(false)]
pub fn many<'a, P: Parser, A: Accum<P::V>>(i: Input<'a>, bound: Bound, p: &P, acc: A) -> (r:
    ParseResult<'a, A, P::E>)
    requires
        bound.max is None ==> productive(p),
    ensures
        engine_res_matches(
            r,
            run_bounded(
                p,
                bound.min as nat,
                max_view(bound.max),
                i@,
                i.spec_end_of_input(),
            ),
            acc.model(),
            i@,
            i.spec_end_of_input(),
        ),
{
    let ghost inp0 = i@;
    let ghost eoi = i.spec_end_of_input();
    let ghost base = acc.model();
    let _total = i.len();
    let mut rest = i;
    let mut acc = acc;
    let mut cnt: usize = 0;
    let ghost mut done: nat = 0nat;
    let ghost mut vs: Seq<P::V> = Seq::empty();
    loop
        invariant
            bound.max is None ==> productive(p),
            bound.max matches Some(m) ==> cnt <= m,
            bound.max is None ==> cnt as nat <= done,
            rest.spec_end_of_input() == eoi,
            inp0.len() <= usize::MAX,
            done <= inp0.len(),
            rest@ == inp0.skip(done as int),
            acc.model() == base + vs,
            vs.len() == cnt,
            engine_run(p, max_view(bound.max), inp0, eoi) == pre_cons(
                done,
                vs,
                engine_run(p, left_view(bound.max, cnt), rest@, eoi),
            ),
        decreases rest@.len(), rounds_left(bound.max, cnt),
    {
        let ghost left = left_view(bound.max, cnt);
        let max_hit: bool = match bound.max {
            Some(m) => cnt >= m,
            None => false,
        };
        if max_hit {
            proof {
                assert(left == Some(0nat));
                assert(vs + Seq::<P::V>::empty() =~= vs);
            }
            return ParseResult::Success(rest, acc);
        }
        proof {
            assert(left != Some(0nat));
            p.lemma_wf(rest@, eoi);
        }
        let ghost o = p.spec_parse(rest@, eoi);
        match p.parse(rest) {
            ParseResult::Success(i2, v) => {
                proof {
                    let n = o->Success_consumed;
                    if bound.max is None {
                        assert(n >= 1);
                    }
                    assert(inp0.skip(done as int).skip(n as int) =~= inp0.skip(done + n as int));
                    assert(vs + seq![v] + (Seq::<P::V>::empty()) =~= vs.push(v));
                }
                acc.push_item(v);
                proof {
                    let n = o->Success_consumed;
                    assert(engine_run(p, left, rest@, eoi) == pre_cons(
                        n,
                        seq![o->Success_value],
                        engine_run(p, dec_max(left), i2@, eoi),
                    ));
                    lemma_pre_cons_assoc(
                        done,
                        vs,
                        n,
                        seq![o->Success_value],
                        engine_run(p, dec_max(left), i2@, eoi),
                    );
                    done = done + n;
                    vs = vs.push(v);
                    assert(vs =~= (base + vs).skip(base.len() as int));
                }
                rest = i2;
                cnt = cnt + 1;
                proof {
                    assert(left_view(bound.max, cnt) == dec_max(left));
                }
            },
            ParseResult::Failure(i2, d) => {
                let ghost n = o->Failure_consumed;
                if i2.len() == rest.len() && cnt >= bound.min {
                    proof {
                        assert(n == 0);
                        assert(vs + Seq::<P::V>::empty() =~= vs);
                    }
                    return ParseResult::Success(rest, acc);
                } else {
                    proof {
                        if n == 0 {
                            assert(vs.len() < bound.min as nat);
                            assert(vs + Seq::<P::V>::empty() =~= vs);
                        }
                        assert(inp0.skip(done as int).skip(n as int) =~= inp0.skip(done + n as int));
                    }
                    return ParseResult::Failure(i2, d);
                }
            },
            ParseResult::Incomplete(need) => {
                proof {
                    assert(vs + Seq::<P::V>::empty() =~= vs);
                }
                if rest.is_end_of_input() && cnt >= bound.min {
                    return ParseResult::Success(rest, acc);
                } else {
                    return ParseResult::Incomplete(need);
                }
            },
        }
    }
}

/// Accounts for `n` consumed bytes and the matches `vs` recorded before
/// the rest of a run whose reading is already settled.
pub open spec fn out_pre<V, E>(n: nat, vs: Seq<V>, o: SpecOutcome<Seq<V>, E>) -> SpecOutcome<
    Seq<V>,
    E,
> {
    match o {
        SpecOutcome::Success { consumed, value } => SpecOutcome::Success {
            consumed: n + consumed,
            value: vs + value,
        },
        SpecOutcome::Failure { consumed, diag } => SpecOutcome::Failure {
            consumed: n + consumed,
            diag,
        },
        SpecOutcome::Incomplete { need } => SpecOutcome::Incomplete { need },
    }
}

/// What repeating `p` until `end` matches does to an input. Each round
/// first attempts `end`: its success stops the loop, consuming the end
/// match but keeping it out of the collected values; a failure of `end`
/// that consumed nothing means "no end here" and hands the round to `p`;
/// a failure of `end` that consumed input is a committed error and
/// propagates. An incomplete `end` propagates while more data may arrive
/// and counts as "no end here" once the view is at end of input. Failures
/// of `p` propagate whatever they consumed, and an incomplete `p`
/// propagates as it stands. As with the unbounded engine, `p` must be
/// productive; the branch for a consuming-nothing success of `p` is never
/// reached for one.
pub open spec fn run_till<P: Parser, Q: Parser<E = P::E>>(
    p: &P,
    end: &Q,
    inp: Seq<u8>,
    eoi: bool,
) -> SpecOutcome<Seq<P::V>, P::E>
    decreases inp.len(),
{
    match end.spec_parse(inp, eoi) {
        SpecOutcome::Success { consumed, value: _ } => SpecOutcome::Success {
            consumed,
            value: Seq::empty(),
        },
        SpecOutcome::Failure { consumed: e_used, diag: e_diag } => {
            if e_used >= 1 {
                SpecOutcome::Failure { consumed: e_used, diag: e_diag }
            } else {
                till_item_round(p, end, inp, eoi)
            }
        },
        SpecOutcome::Incomplete { need } => {
            if eoi {
                till_item_round(p, end, inp, eoi)
            } else {
                SpecOutcome::Incomplete { need }
            }
        },
    }
}

/// One `p` round of [`run_till`], after `end` has declined the input.
pub open spec fn till_item_round<P: Parser, Q: Parser<E = P::E>>(
    p: &P,
    end: &Q,
    inp: Seq<u8>,
    eoi: bool,
) -> SpecOutcome<Seq<P::V>, P::E>
    decreases inp.len(), 0nat,
{
    match p.spec_parse(inp, eoi) {
        SpecOutcome::Success { consumed, value } => {
            if 1 <= consumed <= inp.len() {
                out_pre(consumed, seq![value], run_till(p, end, inp.skip(consumed as int), eoi))
            } else {
                // never reached: repeating until an end demands a
                // productive item parser
                SpecOutcome::Success { consumed: 0, value: Seq::empty() }
            }
        },
        SpecOutcome::Failure { consumed, diag } => SpecOutcome::Failure { consumed, diag },
        SpecOutcome::Incomplete { need } => SpecOutcome::Incomplete { need },
    }
}

/// Runs `p` repeatedly from the view `i` until `end` matches, recording
/// each `p` match into `acc`. The end match is consumed but not recorded.
#[verifier::loop_isolation(false)]
pub fn many_till<'a, P: Parser, Q: Parser<E = P::E>, A: Accum<P::V>>(
    i: Input<'a>,
    p: &P,
    end: &Q,
    acc: A,
) -> (r: ParseResult<'a, A, P::E>)
    requires
        productive(p),
    ensures
        engine_res_matches(
            r,
            run_till(p, end, i@, i.spec_end_of_input()),
            acc.model(),
            i@,
            i.spec_end_of_input(),
        ),
{
    let ghost inp0 = i@;
    let ghost eoi = i.spec_end_of_input();
    let ghost base = acc.model();
    let mut rest = i;
    let mut acc = acc;
    let ghost mut done: nat = 0nat;
    let ghost mut vs: Seq<P::V> = Seq::empty();
    loop
        invariant
            rest.spec_end_of_input() == eoi,
            done <= inp0.len(),
            rest@ == inp0.skip(done as int),
            acc.model() == base + vs,
            run_till(p, end, inp0, eoi) == out_pre(done, vs, run_till(p, end, rest@, eoi)),
        decreases rest@.len(),
    {
        proof {
            end.lemma_wf(rest@, eoi);
            p.lemma_wf(rest@, eoi);
        }
        let ghost o_end = end.spec_parse(rest@, eoi);
        match end.parse(rest) {
            ParseResult::Success(i2, _) => {
                proof {
                    assert(vs + Seq::<P::V>::empty() =~= vs);
                    assert(inp0.skip(done as int).skip(o_end->Success_consumed as int) =~= inp0.skip(
                        done + o_end->Success_consumed as int,
                    ));
                }
                return ParseResult::Success(i2, acc);
            },
            ParseResult::Failure(e_i, e_d) => {
                if e_i.len() < rest.len() {
                    proof {
                        assert(inp0.skip(done as int).skip(o_end->Failure_consumed as int)
                            =~= inp0.skip(done + o_end->Failure_consumed as int));
                    }
                    return ParseResult::Failure(e_i, e_d);
                }
            },
            ParseResult::Incomplete(need) => {
                if !rest.is_end_of_input() {
                    return ParseResult::Incomplete(need);
                }
            },
        }
        let ghost o = p.spec_parse(rest@, eoi);
        match p.parse(rest) {
            ParseResult::Success(i2, v) => {
                proof {
                    let n = o->Success_consumed;
                    assert(inp0.skip(done as int).skip(n as int) =~= inp0.skip(done + n as int));
                }
                acc.push_item(v);
                proof {
                    let n = o->Success_consumed;
                    assert(vs + seq![o->Success_value] =~= vs.push(v));
                    lemma_out_pre_assoc(
                        done,
                        vs,
                        n,
                        seq![o->Success_value],
                        run_till(p, end, i2@, eoi),
                    );
                    done = done + n;
                    vs = vs.push(v);
                    assert(vs =~= (base + vs).skip(base.len() as int));
                }
                rest = i2;
            },
            ParseResult::Failure(i2, d) => {
                proof {
                    assert(inp0.skip(done as int).skip(o->Failure_consumed as int) =~= inp0.skip(
                        done + o->Failure_consumed as int,
                    ));
                }
                return ParseResult::Failure(i2, d);
            },
            ParseResult::Incomplete(need) => {
                return ParseResult::Incomplete(need);
            },
        }
    }
}

/// Accounting for an earlier stretch of a settled run twice is the same
/// as accounting for it once, joined.
pub proof fn lemma_out_pre_assoc<V, E>(
    n1: nat,
    vs1: Seq<V>,
    n2: nat,
    vs2: Seq<V>,
    o: SpecOutcome<Seq<V>, E>,
)
    ensures
        out_pre(n1, vs1, out_pre(n2, vs2, o)) == out_pre(n1 + n2, vs1 + vs2, o),
{
    match o {
        SpecOutcome::Success { consumed, value } => {
            assert(vs1 + (vs2 + value) =~= (vs1 + vs2) + value);
        },
        SpecOutcome::Failure { consumed, diag } => {},
        SpecOutcome::Incomplete { need } => {},
    }
}

/// Accounting for an earlier stretch of a run twice is the same as
/// accounting for it once, joined.
pub proof fn lemma_pre_cons_assoc<V, E>(
    n1: nat,
    vs1: Seq<V>,
    n2: nat,
    vs2: Seq<V>,
    out: RunOut<V, E>,
)
    ensures
        pre_cons(n1, vs1, pre_cons(n2, vs2, out)) == pre_cons(n1 + n2, vs1 + vs2, out),
{
    match out {
        RunOut::Stopped { consumed, values, stop } => {
            assert(vs1 + (vs2 + values) =~= (vs1 + vs2) + values);
        },
        RunOut::Hard { consumed, diag } => {},
        RunOut::More { need } => {},
    }
}

} // verus!
