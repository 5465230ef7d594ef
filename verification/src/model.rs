//! Mathematical model of the transcoding.
//!
//! Everything the executable code promises is stated over these spec
//! functions: [`transcoded`] gives the bytes a single chunk turns into,
//! [`close_normalized`] the end-of-stream fix-up, and [`stream_output`]
//! what a whole chunked run produces.

use crate::{BACKSLASH, COMMA, NEWLINE, QUOTE};
use vstd::prelude::*;

verus! {

/// The bytes emitted for the input byte at position `i` of `h`.
///
/// A separator closes the current field and opens the next one; a
/// terminator closes the current record and opens the next one; either,
/// when directly preceded by a backslash, first repeats that backslash so
/// the escape survives. A literal double quote is backslash-escaped, and
/// every other byte is copied verbatim.
pub open spec fn byte_out(h: Seq<u8>, i: int, sep: u8, eol: u8) -> Seq<u8>
    recommends
        0 <= i < h.len(),
{
    let esc: Seq<u8> = if i > 0 && h[i - 1] == BACKSLASH {
        seq![BACKSLASH]
    } else {
        Seq::<u8>::empty()
    };
    if h[i] == sep {
        esc + seq![QUOTE, COMMA, QUOTE]
    } else if h[i] == eol {
        esc + seq![QUOTE, NEWLINE, QUOTE]
    } else if h[i] == QUOTE {
        seq![BACKSLASH, QUOTE]
    } else {
        seq![h[i]]
    }
}

/// The bytes emitted for the first `n` bytes of `h`.
pub open spec fn transcoded_prefix(h: Seq<u8>, n: int, sep: u8, eol: u8) -> Seq<u8>
    decreases n,
{
    if n <= 0 {
        Seq::<u8>::empty()
    } else {
        transcoded_prefix(h, n - 1, sep, eol) + byte_out(h, n - 1, sep, eol)
    }
}

/// The bytes one chunk `h` turns into.
pub open spec fn transcoded(h: Seq<u8>, sep: u8, eol: u8) -> Seq<u8> {
    transcoded_prefix(h, h.len() as int, sep, eol)
}

/// The end-of-stream fix-up applied to the final pending buffer.
///
/// A trailing quote right after a newline is the reopening quote of a
/// field that never came: drop it. A trailing newline already ends the
/// stream cleanly. Anything else is an open field that still needs its
/// closing quote. Buffers of length zero or one are left untouched.
pub open spec fn close_normalized(s: Seq<u8>) -> Seq<u8> {
    if s.len() <= 1 {
        s
    } else if s.last() == QUOTE {
        if s[s.len() - 2] == NEWLINE {
            s.drop_last()
        } else {
            s
        }
    } else if s.last() == NEWLINE {
        s
    } else {
        s.push(QUOTE)
    }
}

/// The opening quote seeded before the first chunk of a nonempty stream.
pub open spec fn seed_seq(seeded: bool) -> Seq<u8> {
    if seeded {
        seq![QUOTE]
    } else {
        Seq::<u8>::empty()
    }
}

/// The concatenation of the per-chunk transcodings.
pub open spec fn chunks_out(chunks: Seq<Seq<u8>>, sep: u8, eol: u8) -> Seq<u8>
    decreases chunks.len(),
{
    if chunks.len() == 0 {
        Seq::<u8>::empty()
    } else {
        chunks_out(chunks.drop_last(), sep, eol) + transcoded(chunks.last(), sep, eol)
    }
}

/// The chunks laid back to back: the original input bytes.
pub open spec fn concat_chunks(chunks: Seq<Seq<u8>>) -> Seq<u8>
    decreases chunks.len(),
{
    if chunks.len() == 0 {
        Seq::<u8>::empty()
    } else {
        concat_chunks(chunks.drop_last()) + chunks.last()
    }
}

/// No escape-relevant pair straddles the cut between `a` and `b`: the
/// backslash look-back never crosses a chunk boundary, so splitting right
/// between a backslash and a separator or terminator loses the escape.
pub open spec fn safe_split(a: Seq<u8>, b: Seq<u8>, sep: u8, eol: u8) -> bool {
    a.len() == 0 || b.len() == 0 || !(a.last() == BACKSLASH && (b[0] == sep || b[0] == eol))
}

/// Every chunk is nonempty and no boundary splits an escape pair.
pub open spec fn safe_chunking(chunks: Seq<Seq<u8>>, sep: u8, eol: u8) -> bool {
    &&& forall|i: int| 0 <= i < chunks.len() ==> chunks[i].len() > 0
    &&& forall|i: int|
        0 <= i < chunks.len() - 1 ==> safe_split(#[trigger] chunks[i], chunks[i + 1], sep, eol)
}

/// A span of bytes that are neither separator, terminator nor quote is
/// copied verbatim: the transcoding of a prefix grows by exactly that span.
pub proof fn lemma_plain_span(h: Seq<u8>, a: int, b: int, sep: u8, eol: u8)
    requires
        0 <= a <= b <= h.len(),
        forall|j: int| a <= j < b ==> h[j] != sep && h[j] != eol && h[j] != QUOTE,
    ensures
        transcoded_prefix(h, b, sep, eol) == transcoded_prefix(h, a, sep, eol) + h.subrange(a, b),
    decreases b - a,
{
    if b <= a {
        assert(transcoded_prefix(h, a, sep, eol) + h.subrange(a, b) =~= transcoded_prefix(
            h,
            a,
            sep,
            eol,
        ));
    } else {
        lemma_plain_span(h, a, b - 1, sep, eol);
        assert(byte_out(h, b - 1, sep, eol) == seq![h[b - 1]]);
        assert(transcoded_prefix(h, a, sep, eol) + h.subrange(a, b) =~= (transcoded_prefix(
            h,
            a,
            sep,
            eol,
        ) + h.subrange(a, b - 1)) + seq![h[b - 1]]);
    }
}

/// Everything a whole run writes: the seed quote, every chunk's
/// transcoding, with the fix-up applied to the last pending buffer.
///
/// The driver always holds exactly one chunk's output back, so the fix-up
/// sees the seed alone when no chunk ever arrived, and the last chunk's
/// transcoding otherwise.
pub open spec fn stream_output(seeded: bool, chunks: Seq<Seq<u8>>, sep: u8, eol: u8) -> Seq<u8> {
    if chunks.len() == 0 {
        close_normalized(seed_seq(seeded))
    } else {
        seed_seq(seeded) + chunks_out(chunks.drop_last(), sep, eol) + close_normalized(
            transcoded(chunks.last(), sep, eol),
        )
    }
}

} // verus!
