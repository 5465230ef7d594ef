//! The general laws of the transcoding, proved over the model.

use crate::model::{
    byte_out, chunks_out, close_normalized, concat_chunks, lemma_plain_span, safe_chunking,
    safe_split, seed_seq, stream_output, transcoded, transcoded_prefix,
};
use crate::{NEWLINE, QUOTE};
use vstd::prelude::*;

verus! {

/// Each input byte turns into at least one output byte.
proof fn lemma_transcoded_prefix_len(h: Seq<u8>, n: int, sep: u8, eol: u8)
    requires
        0 <= n,
    ensures
        transcoded_prefix(h, n, sep, eol).len() >= n,
    decreases n,
{
    if n > 0 {
        lemma_transcoded_prefix_len(h, n - 1, sep, eol);
    }
}

/// The transcoding is never shorter than its input.
pub proof fn lemma_transcoded_len(h: Seq<u8>, sep: u8, eol: u8)
    ensures
        transcoded(h, sep, eol).len() >= h.len(),
{
    lemma_transcoded_prefix_len(h, h.len() as int, sep, eol);
}

/// Within the left part of a concatenation, the transcoding of a prefix
/// does not see the right part at all.
proof fn lemma_tp_concat_left(c1: Seq<u8>, c2: Seq<u8>, n: int, sep: u8, eol: u8)
    requires
        0 <= n <= c1.len(),
    ensures
        transcoded_prefix(c1 + c2, n, sep, eol) == transcoded_prefix(c1, n, sep, eol),
    decreases n,
{
    if n > 0 {
        lemma_tp_concat_left(c1, c2, n - 1, sep, eol);
        assert((c1 + c2)[n - 1] == c1[n - 1]);
        assert(byte_out(c1 + c2, n - 1, sep, eol) == byte_out(c1, n - 1, sep, eol));
    }
}

/// Past a safe cut, transcoding the concatenation continues exactly as
/// transcoding the right part alone.
proof fn lemma_tp_concat_right(c1: Seq<u8>, c2: Seq<u8>, k: int, sep: u8, eol: u8)
    requires
        safe_split(c1, c2, sep, eol),
        0 <= k <= c2.len(),
    ensures
        transcoded_prefix(c1 + c2, c1.len() + k, sep, eol) == transcoded(c1, sep, eol)
            + transcoded_prefix(c2, k, sep, eol),
    decreases k,
{
    if k == 0 {
        lemma_tp_concat_left(c1, c2, c1.len() as int, sep, eol);
        assert(transcoded(c1, sep, eol) + transcoded_prefix(c2, 0, sep, eol) =~= transcoded(
            c1,
            sep,
            eol,
        ));
    } else {
        lemma_tp_concat_right(c1, c2, k - 1, sep, eol);
        let h = c1 + c2;
        let i = c1.len() + k - 1;
        assert(h[i] == c2[k - 1]);
        if k - 1 > 0 {
            assert(h[i - 1] == c2[k - 2]);
            assert(byte_out(h, i, sep, eol) == byte_out(c2, k - 1, sep, eol));
        } else {
            if c1.len() == 0 {
                assert(byte_out(h, i, sep, eol) == byte_out(c2, k - 1, sep, eol));
            } else {
                assert(h[i - 1] == c1.last());
                assert(byte_out(h, i, sep, eol) == byte_out(c2, k - 1, sep, eol));
            }
        }
        assert(transcoded_prefix(h, c1.len() + k, sep, eol) == transcoded_prefix(h, i, sep, eol)
            + byte_out(h, i, sep, eol));
        assert(transcoded(c1, sep, eol) + transcoded_prefix(c2, k, sep, eol) =~= (transcoded(
            c1,
            sep,
            eol,
        ) + transcoded_prefix(c2, k - 1, sep, eol)) + byte_out(c2, k - 1, sep, eol));
    }
}

/// Transcoding distributes over a safe cut: when no backslash-separator
/// pair straddles the boundary, the two halves can be transcoded
/// independently.
pub proof fn lemma_transcoded_concat(c1: Seq<u8>, c2: Seq<u8>, sep: u8, eol: u8)
    requires
        safe_split(c1, c2, sep, eol),
    ensures
        transcoded(c1 + c2, sep, eol) == transcoded(c1, sep, eol) + transcoded(c2, sep, eol),
{
    lemma_tp_concat_right(c1, c2, c2.len() as int, sep, eol);
}

/// Under a safe chunking, the per-chunk transcodings concatenate to the
/// transcoding of the whole input.
pub proof fn lemma_chunks_out_concat(chunks: Seq<Seq<u8>>, sep: u8, eol: u8)
    requires
        safe_chunking(chunks, sep, eol),
    ensures
        chunks_out(chunks, sep, eol) == transcoded(concat_chunks(chunks), sep, eol),
    decreases chunks.len(),
{
    if chunks.len() == 0 {
        assert(transcoded(concat_chunks(chunks), sep, eol) =~= Seq::<u8>::empty());
    } else {
        let c = chunks.drop_last();
        let l = chunks.last();
        assert(safe_chunking(c, sep, eol)) by {
            assert(forall|i: int| 0 <= i < c.len() ==> c[i] == chunks[i]);
        }
        lemma_chunks_out_concat(c, sep, eol);
        if c.len() > 0 {
            assert(concat_chunks(c) == concat_chunks(c.drop_last()) + c.last());
            assert(c.last() == chunks[chunks.len() - 2]);
            assert(c.last().len() > 0);
            assert(concat_chunks(c).last() == c.last().last());
            assert(safe_split(chunks[chunks.len() - 2], chunks[chunks.len() - 1], sep, eol));
            assert(safe_split(concat_chunks(c), l, sep, eol));
        }
        lemma_transcoded_concat(concat_chunks(c), l, sep, eol);
    }
}

/// The fix-up only ever looks at the last two bytes: any prefix can be
/// split off unchanged, as long as at least two bytes stay behind it.
pub proof fn lemma_close_normalized_append(a: Seq<u8>, b: Seq<u8>)
    requires
        b.len() >= 2,
    ensures
        close_normalized(a + b) == a + close_normalized(b),
{
    let s = a + b;
    assert(s.last() == b.last());
    assert(s[s.len() - 2] == b[b.len() - 2]);
    if b.last() == QUOTE && b[b.len() - 2] == NEWLINE {
        assert(s.drop_last() =~= a + b.drop_last());
    } else if b.last() == QUOTE || b.last() == NEWLINE {
    } else {
        assert(s.push(QUOTE) =~= a + b.push(QUOTE));
    }
}

/// A whole run over a safe chunking whose last chunk has at least two
/// bytes produces exactly the fix-up of the seed quote followed by the
/// transcoding of the complete input, however the input was cut.
pub proof fn lemma_stream_output_flat(seeded: bool, chunks: Seq<Seq<u8>>, sep: u8, eol: u8)
    requires
        safe_chunking(chunks, sep, eol),
        chunks.len() > 0 ==> chunks.last().len() >= 2,
    ensures
        stream_output(seeded, chunks, sep, eol) == close_normalized(
            seed_seq(seeded) + transcoded(concat_chunks(chunks), sep, eol),
        ),
{
    if chunks.len() == 0 {
        assert(seed_seq(seeded) + transcoded(concat_chunks(chunks), sep, eol) =~= seed_seq(
            seeded,
        ));
    } else {
        let pre = seed_seq(seeded) + chunks_out(chunks.drop_last(), sep, eol);
        let t = transcoded(chunks.last(), sep, eol);
        lemma_transcoded_len(chunks.last(), sep, eol);
        lemma_close_normalized_append(pre, t);
        lemma_chunks_out_concat(chunks, sep, eol);
        assert(pre + t =~= seed_seq(seeded) + (chunks_out(chunks.drop_last(), sep, eol) + t));
        assert(chunks_out(chunks.drop_last(), sep, eol) + t == chunks_out(chunks, sep, eol));
        assert(stream_output(seeded, chunks, sep, eol) =~= pre + close_normalized(t));
    }
}

/// How the input is cut into chunks does not change the output: two safe
/// chunkings of the same bytes, each ending in a chunk of at least two
/// bytes, produce the same stream.
pub proof fn lemma_chunking_independent(
    seeded: bool,
    chunks1: Seq<Seq<u8>>,
    chunks2: Seq<Seq<u8>>,
    sep: u8,
    eol: u8,
)
    requires
        safe_chunking(chunks1, sep, eol),
        safe_chunking(chunks2, sep, eol),
        concat_chunks(chunks1) == concat_chunks(chunks2),
        chunks1.len() > 0 ==> chunks1.last().len() >= 2,
        chunks2.len() > 0 ==> chunks2.last().len() >= 2,
    ensures
        stream_output(seeded, chunks1, sep, eol) == stream_output(seeded, chunks2, sep, eol),
{
    lemma_stream_output_flat(seeded, chunks1, sep, eol);
    lemma_stream_output_flat(seeded, chunks2, sep, eol);
}

/// Bytes that are neither separator, terminator nor quote pass through
/// unchanged: the whole run just wraps them in one pair of quotes. The
/// input needs at least two bytes (a single pending byte escapes the
/// fix-up) and must not end in a literal newline (which the fix-up reads
/// as an already closed record).
pub proof fn lemma_plain_passthrough(input: Seq<u8>, sep: u8, eol: u8)
    requires
        input.len() >= 2,
        forall|i: int| 0 <= i < input.len() ==> input[i] != sep && input[i] != eol && input[i] != QUOTE,
        input.last() != NEWLINE,
    ensures
        stream_output(true, seq![input], sep, eol) == seq![QUOTE] + input + seq![QUOTE],
{
    let chunks = seq![input];
    assert(chunks.last() == input);
    assert(chunks.drop_last() =~= Seq::<Seq<u8>>::empty());
    lemma_plain_span(input, 0, input.len() as int, sep, eol);
    assert(transcoded(input, sep, eol) =~= input);
    assert(close_normalized(input) == input.push(QUOTE));
    assert(stream_output(true, chunks, sep, eol) =~= seq![QUOTE] + input + seq![QUOTE]);
}

/// An empty input produces exactly empty output: nothing is seeded and
/// nothing is written.
pub proof fn lemma_empty_input(sep: u8, eol: u8)
    ensures
        stream_output(false, Seq::<Seq<u8>>::empty(), sep, eol) == Seq::<u8>::empty(),
{
    assert(close_normalized(seed_seq(false)) =~= Seq::<u8>::empty());
}

/// The end-of-stream fix-up is idempotent: applied to its own output it
/// changes nothing.
pub proof fn lemma_close_normalized_idempotent(s: Seq<u8>)
    ensures
        close_normalized(close_normalized(s)) == close_normalized(s),
{
    if s.len() <= 1 {
    } else if s.last() == QUOTE {
        if s[s.len() - 2] == NEWLINE {
            let t = s.drop_last();
            assert(t.last() == s[s.len() - 2]);
            assert(close_normalized(t) == t);
        }
    } else if s.last() == NEWLINE {
    } else {
        let t = s.push(QUOTE);
        assert(t.last() == QUOTE);
        assert(t[t.len() - 2] == s.last());
        assert(close_normalized(t) == t);
    }
}

} // verus!
