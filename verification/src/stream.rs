//! The stream driver's state between chunks.
//!
//! The caller owns the actual reads and writes; [`Transcoder`] owns the
//! one-chunk deferral that makes the end-of-stream fix-up possible: the
//! bytes produced for a chunk are handed back only when the next chunk
//! arrives, so the very last pending buffer can still be normalized by
//! [`Transcoder::finish`] before it is written.

use crate::batch::{exorcize_csv_batch, handle_closing};
use crate::model::{chunks_out, close_normalized, seed_seq, stream_output, transcoded};
use crate::QUOTE;
use vstd::prelude::*;

verus! {

/// Carries the transcoding of a chunked stream from one chunk to the next.
pub struct Transcoder {
    /// Field separator byte of the broken input.
    pub sep: u8,
    /// Record terminator byte of the broken input.
    pub eol: u8,
    /// The last produced, not yet handed out, output bytes.
    pub pending: Vec<u8>,
    /// Every byte already handed out for writing.
    pub emitted: Ghost<Seq<u8>>,
    /// Every chunk fed so far.
    pub chunks: Ghost<Seq<Seq<u8>>>,
    /// Whether the stream was announced as nonempty and the opening quote seeded.
    pub seeded: Ghost<bool>,
}

impl Transcoder {
    /// The driver invariant: what was handed out plus what is pending is
    /// exactly the seed quote followed by every fed chunk's transcoding,
    /// and the pending buffer is always the latest chunk's output alone.
    pub open spec fn wf(&self) -> bool {
        &&& (self.chunks@.len() == 0 ==> self.emitted@ == Seq::<u8>::empty() && self.pending@
            == seed_seq(self.seeded@))
        &&& (self.chunks@.len() > 0 ==> self.emitted@ == seed_seq(self.seeded@) + chunks_out(
            self.chunks@.drop_last(),
            self.sep,
            self.eol,
        ) && self.pending@ == transcoded(self.chunks@.last(), self.sep, self.eol))
    }

    /// Starts a run. A nonzero `total_size` seeds the opening quote of the
    /// first field; a zero size leaves everything empty so that an empty
    /// input produces empty output.
    pub fn new(total_size: u64, sep: u8, eol: u8) -> (t: Transcoder)
        ensures
            t.wf(),
            t.sep == sep,
            t.eol == eol,
            t.seeded@ == (total_size > 0),
            t.chunks@ == Seq::<Seq<u8>>::empty(),
            t.emitted@ == Seq::<u8>::empty(),
    {
        let mut pending: Vec<u8> = Vec::new();
        if total_size > 0 {
            pending.push(QUOTE);
        }
        let t = Transcoder {
            sep,
            eol,
            pending,
            emitted: Ghost(Seq::<u8>::empty()),
            chunks: Ghost(Seq::<Seq<u8>>::empty()),
            seeded: Ghost(total_size > 0),
        };
        proof {
            assert(t.pending@ =~= seed_seq(t.seeded@));
        }
        t
    }

    /// Accepts the next chunk. Returns the previous chunk's output, which
    /// the caller must now write to the sink; the new chunk's transcoding
    /// replaces it as the pending buffer.
    pub fn feed_chunk(&mut self, chunk: &[u8]) -> (to_write: Vec<u8>)
        requires
            old(self).wf(),
        ensures
            final(self).wf(),
            final(self).sep == old(self).sep,
            final(self).eol == old(self).eol,
            final(self).seeded == old(self).seeded,
            final(self).chunks@ == old(self).chunks@.push(chunk@),
            to_write@ == old(self).pending@,
            final(self).emitted@ == old(self).emitted@ + to_write@,
            final(self).pending@ == transcoded(chunk@, old(self).sep, old(self).eol),
    {
        let mut fresh: Vec<u8> = Vec::new();
        exorcize_csv_batch(chunk, &mut fresh, self.sep, self.eol);
        core::mem::swap(&mut self.pending, &mut fresh);
        let to_write = fresh;
        proof {
            self.emitted@ = self.emitted@ + to_write@;
            self.chunks@ = self.chunks@.push(chunk@);
            assert(self.chunks@.drop_last() =~= old(self).chunks@);
            assert(self.chunks@.last() == chunk@);
            if old(self).chunks@.len() == 0 {
                assert(self.emitted@ =~= seed_seq(self.seeded@) + chunks_out(
                    self.chunks@.drop_last(),
                    self.sep,
                    self.eol,
                ));
            } else {
                assert(chunks_out(old(self).chunks@, self.sep, self.eol) == chunks_out(
                    old(self).chunks@.drop_last(),
                    self.sep,
                    self.eol,
                ) + transcoded(old(self).chunks@.last(), self.sep, self.eol));
                assert(self.emitted@ =~= seed_seq(self.seeded@) + chunks_out(
                    self.chunks@.drop_last(),
                    self.sep,
                    self.eol,
                ));
            }
        }
        to_write
    }

    /// Ends the run: normalizes the pending buffer's trailing quote and
    /// returns it as the final bytes to write. Together with everything
    /// handed out before, this is exactly the stream output of the fed
    /// chunks.
    pub fn finish(&mut self) -> (last: Vec<u8>)
        requires
            old(self).wf(),
        ensures
            last@ == close_normalized(old(self).pending@),
            old(self).emitted@ + last@ == stream_output(
                old(self).seeded@,
                old(self).chunks@,
                old(self).sep,
                old(self).eol,
            ),
            final(self).pending@ == Seq::<u8>::empty(),
    {
        handle_closing(&mut self.pending);
        let mut fresh: Vec<u8> = Vec::new();
        core::mem::swap(&mut self.pending, &mut fresh);
        proof {
            if old(self).chunks@.len() == 0 {
                assert(old(self).emitted@ + fresh@ =~= close_normalized(
                    seed_seq(old(self).seeded@),
                ));
            } else {
                assert(old(self).emitted@ + fresh@ =~= seed_seq(old(self).seeded@) + chunks_out(
                    old(self).chunks@.drop_last(),
                    old(self).sep,
                    old(self).eol,
                ) + close_normalized(
                    transcoded(old(self).chunks@.last(), old(self).sep, old(self).eol),
                ));
            }
        }
        fresh
    }
}

} // verus!
