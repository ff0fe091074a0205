//! The input view: an immutable, cheaply copyable window over a byte buffer
//! together with an end-of-input flag.
//!
//! An `Input` never owns the bytes it covers. Copying one copies a slice
//! reference and a flag; advancing one produces a new view and leaves the
//! old view valid, so backtracking is simply "keep using the older view".

use vstd::prelude::*;
use vstd::slice::slice_subrange;

verus! {

/// A read-only window over a byte buffer, plus a flag that says whether the
/// buffer already holds everything the stream will ever produce.
#[derive(Clone, Copy, Debug, PartialEq, Eq)]
pub struct Input<'a> {
    buf: &'a [u8],
    eoi: bool,
}

impl<'a> View for Input<'a> {
    type V = Seq<u8>;

    closed spec fn view(&self) -> Seq<u8> {
        self.buf@
    }
}

impl<'a> Input<'a> {
    /// Whether no more data can ever arrive after the bytes in view.
    pub closed spec fn spec_end_of_input(&self) -> bool {
        self.eoi
    }

    /// Builds a view over `buf`. `end_of_input` is `true` when `buf` is all
    /// the data there will ever be, `false` when more may still arrive.
    pub fn new(buf: &'a [u8], end_of_input: bool) -> (i: Input<'a>)
        ensures
            i@ == buf@,
            i.spec_end_of_input() == end_of_input,
    {
        Input { buf, eoi: end_of_input }
    }

    /// The bytes covered by this view.
    pub fn slice(self) -> (s: &'a [u8])
        ensures
            s@ == self@,
    {
        self.buf
    }

    /// The number of bytes in view.
    pub fn len(self) -> (n: usize)
        ensures
            n == self@.len(),
    {
        self.buf.len()
    }

    /// Whether no more data can ever arrive after the bytes in view.
    pub fn is_end_of_input(self) -> (b: bool)
        ensures
            b == self.spec_end_of_input(),
    {
        self.eoi
    }

    /// A new view with the first `n` bytes dropped. The old view stays valid.
    pub fn advance(self, n: usize) -> (i: Input<'a>)
        requires
            n <= self@.len(),
        ensures
            i@ == self@.skip(n as int),
            i.spec_end_of_input() == self.spec_end_of_input(),
    {
        Input { buf: slice_subrange(self.buf, n, self.buf.len()), eoi: self.eoi }
    }

    /// The first `n` bytes of the window, as a slice that outlives the view.
    pub fn prefix(self, n: usize) -> (s: &'a [u8])
        requires
            n <= self@.len(),
        ensures
            s@ == self@.take(n as int),
    {
        slice_subrange(self.buf, 0, n)
    }
}

} // verus!
