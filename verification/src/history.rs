//! The output of a terminal, as far back as it is kept.

use std::collections::VecDeque;

use vstd::prelude::*;

verus! {

/// How many bytes of output are kept for a terminal.
pub const DEFAULT_BUFFER_SIZE: usize = 1048576;

/// The end of some output, as far as there is room for it.
pub open spec fn kept(output: Seq<u8>, limit: nat) -> Seq<u8> {
    if output.len() <= limit {
        output
    } else {
        output.skip(output.len() - limit)
    }
}

/// The end of a terminal's output.
pub struct History {
    /// The bytes, oldest first.
    pub bytes: VecDeque<u8>,
    /// How many there may be.
    pub limit: usize,
}

impl View for History {
    type V = Seq<u8>;

    open spec fn view(&self) -> Seq<u8> {
        self.bytes@
    }
}

impl History {
    /// What always holds: there is room, and not more than fits.
    pub open spec fn wf(self) -> bool {
        self.limit > 0 && self@.len() <= self.limit
    }

    /// No output yet.
    pub fn new() -> (h: History)
        ensures
            h@ == Seq::<u8>::empty(),
            h.limit == DEFAULT_BUFFER_SIZE,
            h.wf(),
    {
        History { bytes: VecDeque::with_capacity(DEFAULT_BUFFER_SIZE), limit: DEFAULT_BUFFER_SIZE }
    }

    /// Adds output. What does not fit any more is dropped, the oldest first.
    pub fn append(&mut self, data: &[u8])
        requires
            old(self).wf(),
        ensures
            final(self)@ == kept(old(self)@ + data@, old(self).limit as nat),
            final(self).limit == old(self).limit,
            final(self).wf(),
    {
        let ghost start = self@;
        let ghost n = self.limit as nat;
        let mut i: usize = 0;
        assert(start + data@.take(0) =~= start);
        while i < data.len()
            invariant
                i <= data@.len(),
                self.limit == n,
                self.wf(),
                self@ == kept(start + data@.take(i as int), n),
            decreases data@.len() - i,
        {
            let ghost before = self@;
            if self.bytes.len() >= self.limit {
                self.bytes.pop_front();
            }
            self.bytes.push_back(data[i]);
            i = i + 1;
            assert(start + data@.take(i as int) =~= (start + data@.take(i - 1)).push(data@[i - 1]));
            assert(self@ =~= kept(start + data@.take(i as int), n));
        }
        assert(data@.take(i as int) =~= data@);
    }

    /// The bytes, oldest first.
    pub fn to_vec(&self) -> (r: Vec<u8>)
        ensures
            r@ == self@,
    {
        let mut r: Vec<u8> = Vec::new();
        let mut i: usize = 0;
        while i < self.bytes.len()
            invariant
                i <= self.bytes@.len(),
                r@ == self.bytes@.take(i as int),
            decreases self.bytes@.len() - i,
        {
            r.push(self.bytes[i]);
            i = i + 1;
            assert(r@ =~= self.bytes@.take(i as int));
        }
        assert(r@ =~= self.bytes@);
        r
    }
}

/// What is kept is the end of all output, in whatever lots it came.
pub proof fn law_history_is_the_end_of_the_output(first: Seq<u8>, second: Seq<u8>, limit: nat)
    ensures
        kept(kept(first, limit) + second, limit) == kept(first + second, limit),
        kept(first + second, limit).len() <= limit,
        first.len() + second.len() <= limit ==> kept(first + second, limit) == first + second,
{
    assert(kept(kept(first, limit) + second, limit) =~= kept(first + second, limit));
}

/// What is kept is all of the output while there is room, and then its last bytes, as many as there
/// is room for.
pub proof fn law_the_last_bytes_are_kept(output: Seq<u8>, limit: nat)
    ensures
        output.len() <= limit ==> kept(output, limit) == output,
        output.len() > limit ==> kept(output, limit) == output.subrange(
            output.len() - limit,
            output.len() as int,
        ),
{
    if output.len() > limit {
        assert(kept(output, limit) =~= output.subrange(output.len() - limit, output.len() as int));
    }
}

} // verus!
