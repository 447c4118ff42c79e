//! The request body's byte accounting.  A `BodyReader` owns the
//! remaining-byte counter seeded from `Content-Length`; the
//! transport asks it how much to read next and reports back how
//! much arrived.  The counter never grows, is forced to zero when
//! the peer closes early, and once it reaches zero no further read
//! is requested — this is what lets the connection be reused for
//! the next request only after the body is fully drained.

use vstd::prelude::*;

verus! {

/// The fixed cap on one body read.
pub const BODY_CHUNK_LIMIT: usize = 1024;

/// Accounting for one request body: how many declared bytes are
/// still unread.
pub struct BodyReader {
    remaining: usize,
}

impl View for BodyReader {
    type V = int;

    closed spec fn view(&self) -> int {
        self.remaining as int
    }
}

/// How many bytes the next read may ask for: the chunk cap, or less
/// when fewer remain.
pub open spec fn spec_next_read_len(rem: int) -> int {
    if rem < BODY_CHUNK_LIMIT as int {
        rem
    } else {
        BODY_CHUNK_LIMIT as int
    }
}

/// The counter after a read that returned `n` bytes: a zero-byte
/// read means the peer closed early and forces the counter to zero.
pub open spec fn spec_after_read(rem: int, n: int) -> int {
    if n == 0 {
        0
    } else {
        rem - n
    }
}

impl BodyReader {
    /// A reader over a body of `c_len` declared bytes.
    pub fn new(c_len: usize) -> (r: BodyReader)
        ensures
            r@ == c_len as int,
    {
        BodyReader { remaining: c_len }
    }

    pub fn remaining(&self) -> (r: usize)
        ensures
            r == self@,
    {
        self.remaining
    }

    /// Whether every declared byte has been read or given up on.
    pub fn is_drained(&self) -> (r: bool)
        ensures
            r == (self@ == 0),
    {
        self.remaining == 0
    }

    /// How many bytes to ask the transport for next; zero exactly
    /// when the body is fully consumed, so a drained reader requests
    /// nothing further.
    pub fn next_read_len(&self) -> (r: usize)
        ensures
            r == spec_next_read_len(self@),
            r == 0 <==> self@ == 0,
    {
        if self.remaining < BODY_CHUNK_LIMIT {
            self.remaining
        } else {
            BODY_CHUNK_LIMIT
        }
    }

    /// Accounts a read that returned `n` bytes.  The counter never
    /// grows, and a zero-byte read (peer closed early) empties it.
    pub fn apply_read(&mut self, n: usize)
        requires
            n <= spec_next_read_len(old(self)@),
        ensures
            final(self)@ == spec_after_read(old(self)@, n as int),
            final(self)@ <= old(self)@,
            n == 0 ==> final(self)@ == 0,
    {
        if n == 0 {
            self.remaining = 0;
        } else {
            self.remaining = self.remaining - n;
        }
    }
}

/// Whether a sequence of read results could come from a transport
/// driven by this accounting: each read returns at most what was
/// asked for.
pub open spec fn wf_reads(rem: int, reads: Seq<int>) -> bool
    decreases reads.len(),
{
    reads.len() == 0 || (0 <= reads[0] <= spec_next_read_len(rem) && wf_reads(
        spec_after_read(rem, reads[0]),
        reads.drop_first(),
    ))
}

/// The counter after a whole run of reads.
pub open spec fn final_rem(rem: int, reads: Seq<int>) -> int
    decreases reads.len(),
{
    if reads.len() == 0 {
        rem
    } else {
        final_rem(spec_after_read(rem, reads[0]), reads.drop_first())
    }
}

/// The bytes a run of reads yields in total.
pub open spec fn seq_sum(reads: Seq<int>) -> int
    decreases reads.len(),
{
    if reads.len() == 0 {
        0
    } else {
        reads[0] + seq_sum(reads.drop_first())
    }
}

/// Over any run of reads against a budget of `rem0` declared bytes,
/// the yielded chunks sum to exactly the bytes the transport handed
/// over, which never exceed the budget; the counter ends
/// non-negative, and ends at zero whenever the whole budget was
/// delivered.
pub proof fn lemma_reads_sum(rem0: int, reads: Seq<int>)
    requires
        0 <= rem0,
        wf_reads(rem0, reads),
    ensures
        0 <= seq_sum(reads) <= rem0,
        final_rem(rem0, reads) >= 0,
        seq_sum(reads) == rem0 ==> final_rem(rem0, reads) == 0,
        final_rem(rem0, reads) <= rem0 - seq_sum(reads),
    decreases reads.len(),
{
    if reads.len() > 0 {
        let rem1 = spec_after_read(rem0, reads[0]);
        lemma_reads_sum(rem1, reads.drop_first());
    }
}

/// After the peer closes the stream early (a zero-byte read), no
/// later read of the run yields anything, whatever else arrives.
pub proof fn lemma_nothing_after_close(rem0: int, reads: Seq<int>, i: int)
    requires
        0 <= rem0,
        wf_reads(rem0, reads),
        0 <= i < reads.len(),
        reads[i] == 0,
    ensures
        forall|j: int| i < j < reads.len() ==> reads[j] == 0,
    decreases reads.len(),
{
    if i == 0 {
        lemma_all_zero_when_drained(0, reads.drop_first());
        assert forall|j: int| 0 < j < reads.len() implies reads[j] == 0 by {
            assert(reads.drop_first()[j - 1] == reads[j]);
        }
    } else {
        lemma_nothing_after_close(spec_after_read(rem0, reads[0]), reads.drop_first(), i - 1);
        assert forall|j: int| i < j < reads.len() implies reads[j] == 0 by {
            assert(reads.drop_first()[j - 1] == reads[j]);
        }
    }
}

/// Draining an already-drained body is a no-op: with nothing
/// remaining, every read request is for zero bytes, nothing is
/// yielded, and the counter stays at zero.
pub proof fn lemma_all_zero_when_drained(rem0: int, reads: Seq<int>)
    requires
        rem0 == 0,
        wf_reads(rem0, reads),
    ensures
        forall|j: int| 0 <= j < reads.len() ==> reads[j] == 0,
        seq_sum(reads) == 0,
        final_rem(rem0, reads) == 0,
    decreases reads.len(),
{
    if reads.len() > 0 {
        assert(reads[0] == 0);
        lemma_all_zero_when_drained(0, reads.drop_first());
        assert forall|j: int| 0 <= j < reads.len() implies reads[j] == 0 by {
            if j > 0 {
                assert(reads.drop_first()[j - 1] == reads[j]);
            }
        }
    }
}

} // verus!
