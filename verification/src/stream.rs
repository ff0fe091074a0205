//! The streaming driver: a growable buffer fed from outside, a committed
//! read cursor, and a parse step that turns a parser's three-way outcome
//! into one terminal-or-retry signal per attempt.
//!
//! The buffer only ever grows, and only past the cursor does any parse
//! attempt look, so replaying the same parser after a grow sees the same
//! bytes it saw before, followed by the new ones. Whoever owns the byte
//! source drives the loop: feed at least the hinted number of bytes on a
//! retry signal, close the source when a read returns nothing, and call
//! the parse step again.

use vstd::prelude::*;

use crate::input::Input;
use crate::parser::{prefix_stable, Parser, SpecOutcome};
use crate::result::ParseResult;

verus! {

/// What one parse attempt against the buffer comes to.
#[derive(Debug, PartialEq, Eq)]
pub enum StreamOut<T, E> {
    /// The parser matched: its value, with the consumed bytes committed.
    Value(T),
    /// The parser needs at least this many further bytes, and more may
    /// still arrive: feed them and call again with the same parser. Not
    /// an error.
    Retry(usize),
    /// The source is exhausted and no unconsumed bytes remain: normal
    /// termination, not an error.
    EndOfStream,
    /// The parser failed: a terminal error for this attempt; the driver
    /// does not retry.
    ParseError(E),
    /// The parser still needed more bytes, but the source is exhausted:
    /// the input ends in the middle of a parse. Terminal.
    UnexpectedEnd,
}

/// The streaming driver's state: the buffer so far, the cursor behind
/// which everything is already consumed, and whether the byte source has
/// reported exhaustion.
pub struct Source {
    buf: Vec<u8>,
    pos: usize,
    eos: bool,
}

impl Source {
    /// The buffer is well-formed: the cursor stays within it.
    pub closed spec fn wf(&self) -> bool {
        self.pos <= self.buf@.len()
    }

    /// The unconsumed bytes: everything past the cursor.
    pub closed spec fn spec_remaining(&self) -> Seq<u8> {
        self.buf@.skip(self.pos as int)
    }

    /// Whether the byte source has reported exhaustion.
    pub closed spec fn spec_exhausted(&self) -> bool {
        self.eos
    }

    /// A fresh driver: empty buffer, source not yet exhausted.
    pub fn new() -> (s: Source)
        ensures
            s.wf(),
            s.spec_remaining() == Seq::<u8>::empty(),
            !s.spec_exhausted(),
    {
        let s = Source { buf: Vec::new(), pos: 0, eos: false };
        proof {
            assert(s.spec_remaining() =~= Seq::<u8>::empty());
        }
        s
    }

    /// Appends freshly read bytes to the buffer. Growth only appends:
    /// every unconsumed byte keeps its place.
    pub fn feed(&mut self, chunk: &[u8])
        requires
            old(self).wf(),
            !old(self).spec_exhausted(),
        ensures
            final(self).wf(),
            final(self).spec_remaining() == old(self).spec_remaining() + chunk@,
            final(self).spec_exhausted() == old(self).spec_exhausted(),
    {
        let mut k: usize = 0;
        let n = chunk.len();
        while k < n
            invariant
                self.buf@ == old(self).buf@ + chunk@.take(k as int),
                self.pos == old(self).pos,
                self.eos == old(self).eos,
                k <= n,
                n == chunk@.len(),
            decreases n - k,
        {
            self.buf.push(*vstd::slice::slice_index_get(chunk, k));
            proof {
                assert(old(self).buf@ + chunk@.take(k as int) + seq![chunk@[k as int]]
                    =~= old(self).buf@ + chunk@.take(k + 1));
            }
            k = k + 1;
        }
        proof {
            assert(chunk@.take(n as int) =~= chunk@);
            assert((old(self).buf@ + chunk@).skip(self.pos as int) =~= old(self).buf@.skip(
                self.pos as int,
            ) + chunk@);
        }
    }

    /// Records that the byte source is exhausted: a read attempt returned
    /// no bytes. From here on, incompleteness means the input truly ends.
    pub fn close(&mut self)
        requires
            old(self).wf(),
        ensures
            final(self).wf(),
            final(self).spec_remaining() == old(self).spec_remaining(),
            final(self).spec_exhausted(),
    {
        self.eos = true;
    }

    /// One parse attempt against the unconsumed bytes, with the
    /// end-of-input flag set exactly when the source is exhausted. A
    /// success commits the cursor past what was consumed; every other
    /// outcome leaves the buffer and cursor as they were.
    pub fn parse<P: Parser>(&mut self, p: &P) -> (r: StreamOut<P::V, P::E>)
        requires
            old(self).wf(),
        ensures
            final(self).wf(),
            final(self).spec_exhausted() == old(self).spec_exhausted(),
            old(self).spec_exhausted() && old(self).spec_remaining().len() == 0 ==> (r
                == StreamOut::<P::V, P::E>::EndOfStream && final(self).spec_remaining() == old(
                self,
            ).spec_remaining()),
            !(old(self).spec_exhausted() && old(self).spec_remaining().len() == 0) ==> {
                let o = p.spec_parse(old(self).spec_remaining(), old(self).spec_exhausted());
                match o {
                    SpecOutcome::Success { consumed, value } => {
                        &&& r == StreamOut::<P::V, P::E>::Value(value)
                        &&& final(self).spec_remaining() == old(self).spec_remaining().skip(
                            consumed as int,
                        )
                    },
                    SpecOutcome::Failure { consumed: _, diag } => {
                        &&& r == StreamOut::<P::V, P::E>::ParseError(diag)
                        &&& final(self).spec_remaining() == old(self).spec_remaining()
                    },
                    SpecOutcome::Incomplete { need } => {
                        &&& r == if old(self).spec_exhausted() {
                            StreamOut::<P::V, P::E>::UnexpectedEnd
                        } else {
                            StreamOut::<P::V, P::E>::Retry(need as usize)
                        }
                        &&& need <= usize::MAX
                        &&& final(self).spec_remaining() == old(self).spec_remaining()
                    },
                }
            },
    {
        let len = self.buf.len();
        if self.eos && self.pos == len {
            proof {
                assert(self.spec_remaining().len() == 0);
            }
            return StreamOut::EndOfStream;
        }
        proof {
            p.lemma_wf(self.spec_remaining(), self.eos);
        }
        let window = vstd::slice::slice_subrange(self.buf.as_slice(), self.pos, len);
        let i = Input::new(window, self.eos);
        match p.parse(i) {
            ParseResult::Success(i2, v) => {
                let used = (len - self.pos) - i2.len();
                self.pos = self.pos + used;
                proof {
                    let consumed = p.spec_parse(
                        old(self).spec_remaining(),
                        old(self).spec_exhausted(),
                    )->Success_consumed;
                    assert(old(self).buf@.skip(old(self).pos as int).skip(consumed as int)
                        =~= old(self).buf@.skip(old(self).pos + consumed));
                }
                StreamOut::Value(v)
            },
            ParseResult::Failure(_, d) => StreamOut::ParseError(d),
            ParseResult::Incomplete(n) => {
                if self.eos {
                    StreamOut::UnexpectedEnd
                } else {
                    StreamOut::Retry(n)
                }
            },
        }
    }
}

/// What driving a parser over a byte source comes to, at the
/// specification level: the buffered-so-far bytes, and the chunks a
/// source will still hand over, each nonempty (a read that returns no
/// bytes is the end of the stream, not a chunk). Each round attempts the
/// parser on the buffer, with the end-of-input flag set once no chunks
/// are left; only an incomplete outcome with chunks still to come grows
/// the buffer and goes round again.
pub open spec fn drive<P: Parser>(p: &P, buffered: Seq<u8>, chunks: Seq<Seq<u8>>) -> StreamOut<
    P::V,
    P::E,
>
    decreases chunks.len(),
{
    let eoi = chunks.len() == 0;
    if eoi && buffered.len() == 0 {
        StreamOut::EndOfStream
    } else {
        match p.spec_parse(buffered, eoi) {
            SpecOutcome::Success { consumed: _, value } => StreamOut::Value(value),
            SpecOutcome::Failure { consumed: _, diag } => StreamOut::ParseError(diag),
            SpecOutcome::Incomplete { need: _ } => {
                if eoi {
                    StreamOut::UnexpectedEnd
                } else {
                    drive(p, buffered + chunks[0], chunks.skip(1))
                }
            },
        }
    }
}

/// Streaming equivalence: for a prefix-stable parser, feeding the bytes
/// chunk by chunk through the grow-and-retry loop reaches the same
/// terminal outcome as parsing the whole input in one buffer with the
/// end-of-input flag set. Chunks are nonempty, as reads from a live
/// source are.
pub proof fn lemma_streaming_equivalence<P: Parser>(p: &P, buffered: Seq<u8>, chunks: Seq<Seq<u8>>)
    requires
        prefix_stable(p),
        forall|k: int| 0 <= k < chunks.len() ==> (#[trigger] chunks[k]).len() >= 1,
    ensures
        drive(p, buffered, chunks) == drive(p, buffered + chunks.flatten(), Seq::<Seq<u8>>::empty()),
    decreases chunks.len(),
{
    if chunks.len() == 0 {
        assert(buffered + chunks.flatten() =~= buffered);
    } else {
        let full = buffered + chunks.flatten();
        assert(chunks[0] == chunks.first());
        assert(chunks.skip(1) == chunks.drop_first());
        assert(full =~= (buffered + chunks[0]) + chunks.skip(1).flatten());
        assert(full.len() >= buffered.len() + chunks[0].len() >= 1);
        match p.spec_parse(buffered, false) {
            SpecOutcome::Success { consumed: _, value } => {
                assert(p.spec_parse(buffered + chunks.flatten(), true) == p.spec_parse(
                    buffered,
                    false,
                ));
            },
            SpecOutcome::Failure { consumed: _, diag } => {
                assert(p.spec_parse(buffered + chunks.flatten(), true) == p.spec_parse(
                    buffered,
                    false,
                ));
            },
            SpecOutcome::Incomplete { need: _ } => {
                lemma_streaming_equivalence(p, buffered + chunks[0], chunks.skip(1));
            },
        }
    }
}

} // verus!
