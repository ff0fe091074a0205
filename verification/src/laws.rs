//! The engine's governing laws, stated and proved once, against the
//! specification functions that the combinators' contracts are written
//! over: the repetition bound is respected, unbounded repetition cannot
//! fail of itself, a committed failure propagates verbatim, and the
//! matcher parsers are prefix-stable, as the streaming driver's replay
//! demands.

use vstd::prelude::*;

use crate::bounded::{dec_max, engine_run, max_fuel, run_bounded, run_till, RunOut, Stop};
use crate::parser::{prefix_stable, productive, Parser, SpecOutcome};
use crate::parsers::{str_spec, Any, Fail, Label, Str, Token};

verus! {

/// How many times the repetition loop invokes its sub-parser on a given
/// input: once per round that runs it, stopping as [`engine_run`] does.
pub open spec fn engine_calls<P: Parser>(p: &P, max: Option<nat>, inp: Seq<u8>, eoi: bool) -> nat
    decreases inp.len(), max_fuel(max),
{
    if max == Some(0nat) {
        0
    } else {
        match p.spec_parse(inp, eoi) {
            SpecOutcome::Success { consumed, value: _ } => {
                if 1 <= consumed <= inp.len() {
                    1 + engine_calls(p, dec_max(max), inp.skip(consumed as int), eoi)
                } else if consumed == 0 && max is Some {
                    1 + engine_calls(p, dec_max(max), inp, eoi)
                } else {
                    1
                }
            },
            SpecOutcome::Failure { consumed: _, diag: _ } => 1,
            SpecOutcome::Incomplete { need: _ } => 1,
        }
    }
}

/// Under a finite bound `m`, the loop records at most `m` matches, calls
/// the sub-parser at most `m` times, and when it stops on the bound it
/// has recorded exactly `m` matches.
pub proof fn lemma_engine_within_max<P: Parser>(p: &P, m: nat, inp: Seq<u8>, eoi: bool)
    ensures
        engine_run(p, Some(m), inp, eoi) matches RunOut::Stopped { consumed: _, values, stop }
            ==> values.len() <= m && (stop is MaxHit ==> values.len() == m),
        engine_calls(p, Some(m), inp, eoi) <= m,
    decreases inp.len(), m,
{
    if m != 0 {
        p.lemma_wf(inp, eoi);
        match p.spec_parse(inp, eoi) {
            SpecOutcome::Success { consumed, value: _ } => {
                if 1 <= consumed <= inp.len() {
                    lemma_engine_within_max(p, (m - 1) as nat, inp.skip(consumed as int), eoi);
                } else {
                    lemma_engine_within_max(p, (m - 1) as nat, inp, eoi);
                }
            },
            SpecOutcome::Failure { consumed: _, diag: _ } => {},
            SpecOutcome::Incomplete { need: _ } => {},
        }
    }
}

/// For a productive sub-parser, an unbounded loop never stops on the
/// (unreachable) bound, so every stop carries the mismatch or
/// end-of-input signal that caused it.
pub proof fn lemma_engine_unbounded_stops<P: Parser>(p: &P, inp: Seq<u8>, eoi: bool)
    requires
        productive(p),
    ensures
        engine_run(p, None, inp, eoi) matches RunOut::Stopped { consumed: _, values: _, stop }
            ==> !(stop is MaxHit),
    decreases inp.len(),
{
    p.lemma_wf(inp, eoi);
    if let SpecOutcome::Success { consumed, value: _ } = p.spec_parse(inp, eoi) {
        lemma_engine_unbounded_stops(p, inp.skip(consumed as int), eoi);
    }
}

/// The repetition bound is respected: for every bound with `min <= max`
/// (and a productive sub-parser where the bound is open above), a success
/// of the bounded engine records at least `min` and at most `max`
/// matches, and the sub-parser is invoked at most `max` times.
pub proof fn lemma_bound_respected<P: Parser>(
    p: &P,
    min: nat,
    max: Option<nat>,
    inp: Seq<u8>,
    eoi: bool,
)
    requires
        max matches Some(m) ==> min <= m,
        max is None ==> productive(p),
    ensures
        run_bounded(p, min, max, inp, eoi) matches SpecOutcome::Success { consumed: _, value }
            ==> value.len() >= min,
        max matches Some(m) ==> (run_bounded(p, min, max, inp, eoi) matches SpecOutcome::Success {
            consumed: _,
            value,
        } ==> value.len() <= m),
        max matches Some(m) ==> engine_calls(p, max, inp, eoi) <= m,
{
    match max {
        Some(m) => {
            lemma_engine_within_max(p, m, inp, eoi);
        },
        None => {
            lemma_engine_unbounded_stops(p, inp, eoi);
        },
    }
}

/// A parser that never fails after consuming input cannot make an
/// unbounded zero-minimum repetition of it fail: `many` of such a parser
/// only succeeds or asks for more data.
pub proof fn lemma_many_never_fails<P: Parser>(p: &P, inp: Seq<u8>, eoi: bool)
    requires
        forall|inp2: Seq<u8>, e2: bool|
            (#[trigger] p.spec_parse(inp2, e2)) matches SpecOutcome::Failure { consumed, diag: _ }
                ==> consumed == 0,
    ensures
        !(run_bounded(p, 0nat, None, inp, eoi) is Failure),
    decreases inp.len(),
{
    p.lemma_wf(inp, eoi);
    match p.spec_parse(inp, eoi) {
        SpecOutcome::Success { consumed, value: _ } => {
            if 1 <= consumed <= inp.len() {
                lemma_many_never_fails(p, inp.skip(consumed as int), eoi);
            }
        },
        SpecOutcome::Failure { consumed: _, diag: _ } => {},
        SpecOutcome::Incomplete { need: _ } => {},
    }
}

/// With nothing owed below, the repetition itself has no failure of its
/// own: any failure it reports consumed input, that is, it is a committed
/// sub-parser error passed through.
pub proof fn lemma_many_failure_is_committed<P: Parser>(p: &P, inp: Seq<u8>, eoi: bool)
    ensures
        run_bounded(p, 0nat, None, inp, eoi) matches SpecOutcome::Failure { consumed, diag: _ }
            ==> consumed >= 1,
    decreases inp.len(),
{
    p.lemma_wf(inp, eoi);
    if let SpecOutcome::Success { consumed, value: _ } = p.spec_parse(inp, eoi) {
        if 1 <= consumed <= inp.len() {
            lemma_many_failure_is_committed(p, inp.skip(consumed as int), eoi);
        }
    }
}

/// A committed failure of the sub-parser on the first round propagates
/// out of the bounded engine verbatim: same diagnostic, same consumed
/// count, whatever the lower bound asked for.
pub proof fn lemma_commit_propagates<P: Parser>(
    p: &P,
    min: nat,
    max: Option<nat>,
    inp: Seq<u8>,
    eoi: bool,
)
    requires
        max != Some(0nat),
        (p.spec_parse(inp, eoi) matches SpecOutcome::Failure { consumed, diag: _ } && consumed
            >= 1),
    ensures
        run_bounded(p, min, max, inp, eoi) == (SpecOutcome::<Seq<P::V>, P::E>::Failure {
            consumed: p.spec_parse(inp, eoi)->Failure_consumed,
            diag: p.spec_parse(inp, eoi)->Failure_diag,
        }),
{
}

/// The sub-parser failed at position `pos` of the repetition's input,
/// consuming the rest of what the engine's failure reports, with the
/// same diagnostic.
pub open spec fn sub_failed_at<P: Parser>(
    p: &P,
    inp: Seq<u8>,
    eoi: bool,
    pos: int,
    consumed: nat,
    diag: P::E,
) -> bool {
    p.spec_parse(inp.skip(pos), eoi) == SpecOutcome::<P::V, P::E>::Failure {
        consumed: (consumed - pos) as nat,
        diag,
    }
}

/// Every failure the bounded engine reports is a sub-parser's own
/// failure, verbatim: at some position the engine had reached, the
/// sub-parser failed with exactly the reported diagnostic, and the
/// reported consumed count is that position plus the sub-parser's own
/// consumption. The engine never invents, renames or absorbs an error.
pub proof fn lemma_failure_is_sub_failure<P: Parser>(
    p: &P,
    min: nat,
    max: Option<nat>,
    inp: Seq<u8>,
    eoi: bool,
)
    ensures
        run_bounded(p, min, max, inp, eoi) matches SpecOutcome::Failure { consumed, diag }
            ==> exists|pos: int|
            0 <= pos <= consumed && #[trigger] sub_failed_at(p, inp, eoi, pos, consumed, diag),
    decreases inp.len(), max_fuel(max),
{
    if max != Some(0nat) {
        p.lemma_wf(inp, eoi);
        match p.spec_parse(inp, eoi) {
            SpecOutcome::Success { consumed, value: _ } => {
                if 1 <= consumed <= inp.len() {
                    lemma_failure_is_sub_failure(p, min, dec_max(max), inp.skip(consumed as int), eoi);
                    if let SpecOutcome::Failure { consumed: c, diag: d } = run_bounded(
                        p,
                        min,
                        max,
                        inp,
                        eoi,
                    ) {
                        let tail = run_bounded(p, min, dec_max(max), inp.skip(consumed as int), eoi);
                        crate::bounded::lemma_run_bounded_wf(
                            p,
                            min,
                            dec_max(max),
                            inp.skip(consumed as int),
                            eoi,
                        );
                        assert(tail matches SpecOutcome::Failure { consumed: tc, diag: td } && tc
                            == c - consumed && td == d);
                        let tpos = choose|tpos: int|
                            0 <= tpos <= (c - consumed) && #[trigger] sub_failed_at(
                                p,
                                inp.skip(consumed as int),
                                eoi,
                                tpos,
                                (c - consumed) as nat,
                                d,
                            );
                        assert(inp.skip(consumed as int).skip(tpos) =~= inp.skip(
                            consumed + tpos,
                        ));
                        assert(sub_failed_at(p, inp, eoi, consumed + tpos, c, d));
                    }
                } else if consumed == 0 && max is Some {
                    lemma_failure_is_sub_failure(p, min, dec_max(max), inp, eoi);
                    if let SpecOutcome::Failure { consumed: c, diag: d } = run_bounded(
                        p,
                        min,
                        max,
                        inp,
                        eoi,
                    ) {
                        let tpos = choose|tpos: int|
                            0 <= tpos <= c && #[trigger] sub_failed_at(p, inp, eoi, tpos, c, d);
                        assert(sub_failed_at(p, inp, eoi, tpos, c, d));
                    }
                }
            },
            SpecOutcome::Failure { consumed, diag } => {
                if let SpecOutcome::Failure { consumed: c, diag: d } = run_bounded(
                    p,
                    min,
                    max,
                    inp,
                    eoi,
                ) {
                    assert(inp.skip(0) =~= inp);
                    assert(sub_failed_at(p, inp, eoi, 0, c, d));
                }
            },
            SpecOutcome::Incomplete { need: _ } => {},
        }
    }
}

/// In `many_till`, a committed failure of either parser on a round the
/// loop reaches propagates verbatim: when `end` declines the input
/// without consuming and the item parser fails, the failure is the
/// result; when `end` itself fails after consuming, that failure is the
/// result.
pub proof fn lemma_till_commit_propagates<P: Parser, Q: Parser<E = P::E>>(
    p: &P,
    end: &Q,
    inp: Seq<u8>,
    eoi: bool,
)
    ensures
        (end.spec_parse(inp, eoi) matches SpecOutcome::Failure { consumed: ec, diag: _ } && ec >= 1)
            ==> run_till(p, end, inp, eoi) == (SpecOutcome::<Seq<P::V>, P::E>::Failure {
            consumed: end.spec_parse(inp, eoi)->Failure_consumed,
            diag: end.spec_parse(inp, eoi)->Failure_diag,
        }),
        (end.spec_parse(inp, eoi) matches SpecOutcome::Failure { consumed: ec, diag: _ } && ec == 0
            && p.spec_parse(inp, eoi) is Failure) ==> run_till(p, end, inp, eoi) == (
        SpecOutcome::<Seq<P::V>, P::E>::Failure {
            consumed: p.spec_parse(inp, eoi)->Failure_consumed,
            diag: p.spec_parse(inp, eoi)->Failure_diag,
        }),
{
}

/// A repetition of a prefix-stable sub-parser is itself replay-stable:
/// when the loop reaches a decision on a buffer that may still grow, the
/// same decision — same matches, same consumption, same failure — is
/// reached again on any extension of that buffer, with any end-of-input
/// flag. Only a loop that asked for more data can come out differently
/// once the data is there.
pub proof fn lemma_engine_run_stable<P: Parser>(
    p: &P,
    max: Option<nat>,
    inp: Seq<u8>,
    ext: Seq<u8>,
    eoi: bool,
)
    requires
        prefix_stable(p),
        !(engine_run(p, max, inp, false) is More),
    ensures
        engine_run(p, max, inp + ext, eoi) == engine_run(p, max, inp, false),
    decreases inp.len(), max_fuel(max),
{
    if max != Some(0nat) {
        p.lemma_wf(inp, false);
        match p.spec_parse(inp, false) {
            SpecOutcome::Success { consumed, value: _ } => {
                assert(p.spec_parse(inp + ext, eoi) == p.spec_parse(inp, false));
                if 1 <= consumed <= inp.len() {
                    assert((inp + ext).skip(consumed as int) =~= inp.skip(consumed as int) + ext);
                    lemma_engine_run_stable(p, dec_max(max), inp.skip(consumed as int), ext, eoi);
                } else if consumed == 0 && max is Some {
                    lemma_engine_run_stable(p, dec_max(max), inp, ext, eoi);
                }
            },
            SpecOutcome::Failure { consumed: _, diag: _ } => {
                assert(p.spec_parse(inp + ext, eoi) == p.spec_parse(inp, false));
            },
            SpecOutcome::Incomplete { need: _ } => {},
        }
    }
}

/// As [`lemma_engine_run_stable`], read through the lower bound: a
/// bounded repetition of a prefix-stable sub-parser that has reached a
/// success or failure reaches the same one on any extension.
pub proof fn lemma_run_bounded_stable<P: Parser>(
    p: &P,
    min: nat,
    max: Option<nat>,
    inp: Seq<u8>,
    ext: Seq<u8>,
    eoi: bool,
)
    requires
        prefix_stable(p),
        !(run_bounded(p, min, max, inp, false) is Incomplete),
    ensures
        run_bounded(p, min, max, inp + ext, eoi) == run_bounded(p, min, max, inp, false),
{
    lemma_engine_run_stable(p, max, inp, ext, eoi);
}

/// Repeating a prefix-stable item parser until a prefix-stable end
/// parser matches is itself replay-stable: a decided run is reproduced
/// exactly on any extension of the buffer.
pub proof fn lemma_run_till_stable<P: Parser, Q: Parser<E = P::E>>(
    p: &P,
    end: &Q,
    inp: Seq<u8>,
    ext: Seq<u8>,
    eoi: bool,
)
    requires
        prefix_stable(p),
        prefix_stable(end),
        !(run_till(p, end, inp, false) is Incomplete),
    ensures
        run_till(p, end, inp + ext, eoi) == run_till(p, end, inp, false),
    decreases inp.len(),
{
    p.lemma_wf(inp, false);
    end.lemma_wf(inp, false);
    match end.spec_parse(inp, false) {
        SpecOutcome::Success { consumed: _, value: _ } => {
            assert(end.spec_parse(inp + ext, eoi) == end.spec_parse(inp, false));
        },
        SpecOutcome::Failure { consumed: e_used, diag: _ } => {
            assert(end.spec_parse(inp + ext, eoi) == end.spec_parse(inp, false));
            if e_used == 0 {
                match p.spec_parse(inp, false) {
                    SpecOutcome::Success { consumed, value: _ } => {
                        assert(p.spec_parse(inp + ext, eoi) == p.spec_parse(inp, false));
                        if 1 <= consumed <= inp.len() {
                            assert((inp + ext).skip(consumed as int) =~= inp.skip(consumed as int)
                                + ext);
                            lemma_run_till_stable(p, end, inp.skip(consumed as int), ext, eoi);
                        }
                    },
                    SpecOutcome::Failure { consumed: _, diag: _ } => {
                        assert(p.spec_parse(inp + ext, eoi) == p.spec_parse(inp, false));
                    },
                    SpecOutcome::Incomplete { need: _ } => {},
                }
            }
        },
        SpecOutcome::Incomplete { need: _ } => {},
    }
}

/// A separated repetition of prefix-stable item and separator parsers is
/// itself replay-stable: a decided run is reproduced exactly on any
/// extension of the buffer.
pub proof fn lemma_run_sep_stable<P: Parser, S: Parser<E = P::E>>(
    p: &P,
    sep: &S,
    min: nat,
    inp: Seq<u8>,
    ext: Seq<u8>,
    eoi: bool,
)
    requires
        prefix_stable(p),
        prefix_stable(sep),
        !(crate::combinators::run_sep(p, sep, min, inp, false) is Incomplete),
    ensures
        crate::combinators::run_sep(p, sep, min, inp + ext, eoi) == crate::combinators::run_sep(
            p,
            sep,
            min,
            inp,
            false,
        ),
{
    p.lemma_wf(inp, false);
    let step = crate::combinators::SepStep { sep, item: p };
    match p.spec_parse(inp, false) {
        SpecOutcome::Success { consumed, value: _ } => {
            assert(p.spec_parse(inp + ext, eoi) == p.spec_parse(inp, false));
            if 1 <= consumed <= inp.len() {
                lemma_sep_step_stable(step);
                assert((inp + ext).skip(consumed as int) =~= inp.skip(consumed as int) + ext);
                lemma_run_bounded_stable(
                    &step,
                    crate::combinators::rest_min(min),
                    None,
                    inp.skip(consumed as int),
                    ext,
                    eoi,
                );
            }
        },
        SpecOutcome::Failure { consumed: _, diag: _ } => {
            assert(p.spec_parse(inp + ext, eoi) == p.spec_parse(inp, false));
        },
        SpecOutcome::Incomplete { need: _ } => {},
    }
}

/// The single-byte matcher decides by the first byte alone, so a decision
/// it reaches stands under any extension of the input.
pub proof fn lemma_token_stable(p: Token)
    ensures
        prefix_stable(&p),
{
    assert forall|inp: Seq<u8>, ext: Seq<u8>, eoi: bool|
        !((&p).spec_parse(inp, false) is Incomplete) implies #[trigger] (&p).spec_parse(
        inp + ext,
        eoi,
    ) == (&p).spec_parse(inp, false) by {
        assert(inp.len() > 0);
        assert((inp + ext)[0] == inp[0]);
    }
}

/// The any-byte matcher decides by the first byte alone, so a decision it
/// reaches stands under any extension of the input.
pub proof fn lemma_any_stable(p: Any)
    ensures
        prefix_stable(&p),
{
    assert forall|inp: Seq<u8>, ext: Seq<u8>, eoi: bool|
        !((&p).spec_parse(inp, false) is Incomplete) implies #[trigger] (&p).spec_parse(
        inp + ext,
        eoi,
    ) == (&p).spec_parse(inp, false) by {
        assert(inp.len() > 0);
        assert((inp + ext)[0] == inp[0]);
    }
}

/// A byte-run match that has been decided looked only at bytes within
/// reach, so the decision stands under any extension of the input.
pub proof fn lemma_str_spec_stable(exp: Seq<u8>, inp: Seq<u8>, ext: Seq<u8>)
    requires
        !(str_spec(exp, inp) is Incomplete),
    ensures
        str_spec(exp, inp + ext) == str_spec(exp, inp),
    decreases exp.len(),
{
    if exp.len() > 0 {
        assert(inp.len() > 0);
        assert((inp + ext)[0] == inp[0]);
        if inp[0] == exp[0] {
            assert((inp + ext).skip(1) =~= inp.skip(1) + ext);
            lemma_str_spec_stable(exp.skip(1), inp.skip(1), ext);
        }
    }
}

/// The byte-run matcher is prefix-stable.
pub proof fn lemma_string_stable<'e>(p: Str<'e>)
    ensures
        prefix_stable(&p),
{
    assert forall|inp: Seq<u8>, ext: Seq<u8>, eoi: bool|
        !((&p).spec_parse(inp, false) is Incomplete) implies #[trigger] (&p).spec_parse(
        inp + ext,
        eoi,
    ) == (&p).spec_parse(inp, false) by {
        lemma_str_spec_stable(p.spec_expected(), inp, ext);
    }
}

/// The atomic separator-then-item step of `sep_by` is prefix-stable when
/// both of its parts are: a decided step looked only at bytes within
/// reach of the two decided parts.
pub proof fn lemma_sep_step_stable<S: Parser, P: Parser<E = S::E>>(
    step: crate::combinators::SepStep<S, P>,
)
    requires
        prefix_stable(&step.sep),
        prefix_stable(&step.item),
    ensures
        prefix_stable(&step),
{
    assert forall|inp: Seq<u8>, ext: Seq<u8>, eoi: bool|
        !((&step).spec_parse(inp, false) is Incomplete) implies #[trigger] (&step).spec_parse(
        inp + ext,
        eoi,
    ) == (&step).spec_parse(inp, false) by {
        (&step.sep).lemma_wf(inp, false);
        match step.sep.spec_parse(inp, false) {
            SpecOutcome::Success { consumed: n, value: _ } => {
                assert(step.sep.spec_parse(inp + ext, eoi) == step.sep.spec_parse(inp, false));
                assert((inp + ext).skip(n as int) =~= inp.skip(n as int) + ext);
                assert(!(step.item.spec_parse(inp.skip(n as int), false) is Incomplete));
                assert(step.item.spec_parse(inp.skip(n as int) + ext, eoi) == step.item.spec_parse(
                    inp.skip(n as int),
                    false,
                ));
            },
            SpecOutcome::Failure { consumed: _, diag: _ } => {
                assert(step.sep.spec_parse(inp + ext, eoi) == step.sep.spec_parse(inp, false));
            },
            SpecOutcome::Incomplete { need: _ } => {},
        }
    }
}

/// A parser that always fails the same way is prefix-stable.
pub proof fn lemma_fail_stable<V, E: Copy>(p: Fail<V, E>)
    ensures
        prefix_stable(&p),
{
}

/// Relabelling failures keeps a parser's successes, so it keeps
/// productivity too.
pub proof fn lemma_label_productive<P: Parser, E: Copy>(p: Label<P, E>)
    requires
        productive(&p.spec_inner()),
    ensures
        productive(&p),
{
    assert forall|inp: Seq<u8>, eoi: bool|
        ((#[trigger] (&p).spec_parse(inp, eoi)) matches SpecOutcome::Success { consumed, value: _ }
            ==> consumed >= 1) by {
        assert((&p.spec_inner()).spec_parse(inp, eoi) == p.spec_inner().spec_parse(inp, eoi));
    }
}

/// Relabelling failures keeps a parser's decisions, so it keeps
/// prefix-stability too.
pub proof fn lemma_label_stable<P: Parser, E: Copy>(p: Label<P, E>)
    requires
        prefix_stable(&p.spec_inner()),
    ensures
        prefix_stable(&p),
{
    assert forall|inp: Seq<u8>, ext: Seq<u8>, eoi: bool|
        !((&p).spec_parse(inp, false) is Incomplete) implies #[trigger] (&p).spec_parse(
        inp + ext,
        eoi,
    ) == (&p).spec_parse(inp, false) by {
        assert((&p.spec_inner()).spec_parse(inp + ext, eoi) == (&p.spec_inner()).spec_parse(
            inp,
            false,
        ));
    }
}

} // verus!
