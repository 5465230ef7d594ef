//! The batch transcoder: one chunk of broken input to quoted CSV bytes.

use crate::model::{byte_out, lemma_plain_span, transcoded, transcoded_prefix};
use crate::{BACKSLASH, COMMA, NEWLINE, QUOTE};
use vstd::prelude::*;
use vstd::slice::slice_subrange;

verus! {

/// Relies on memchr::memchr3: the index of the first occurrence of any of
/// the three needle bytes in the haystack, `None` when none occurs.
#[verifier::external_body]
fn find_special(needle1: u8, needle2: u8, needle3: u8, haystack: &[u8]) -> (r: Option<usize>)
    ensures
        match r {
            Some(p) => 0 <= p < haystack@.len() && (haystack@[p as int] == needle1
                || haystack@[p as int] == needle2 || haystack@[p as int] == needle3) && forall|
                j: int,
            |
                0 <= j < p ==> haystack@[j] != needle1 && haystack@[j] != needle2 && haystack@[j]
                    != needle3,
            None => forall|j: int|
                0 <= j < haystack@.len() ==> haystack@[j] != needle1 && haystack@[j] != needle2
                    && haystack@[j] != needle3,
        },
{
    memchr::memchr3(needle1, needle2, needle3, haystack)
}

/// Appends `h[start..end]` verbatim to `buf`.
fn push_range(buf: &mut Vec<u8>, h: &[u8], start: usize, end: usize)
    requires
        start <= end <= h@.len(),
    ensures
        final(buf)@ == old(buf)@ + h@.subrange(start as int, end as int),
{
    let ghost orig = buf@;
    let mut j: usize = start;
    while j < end
        invariant
            start <= j <= end <= h@.len(),
            buf@ == orig + h@.subrange(start as int, j as int),
        decreases end - j,
    {
        let b = *vstd::slice::slice_index_get(h, j);
        buf.push(b);
        j = j + 1;
        proof {
            assert(h@.subrange(start as int, j as int) =~= h@.subrange(
                start as int,
                j - 1,
            ).push(h@[j - 1]));
            assert(buf@ =~= orig + h@.subrange(start as int, j as int));
        }
    }
    proof {
        assert(buf@ =~= orig + h@.subrange(start as int, end as int));
    }
}

/// Emits the replacement bytes for the special byte at `h[pos]`.
fn emit_match(buf: &mut Vec<u8>, h: &[u8], pos: usize, sep: u8, eol: u8)
    requires
        pos < h@.len(),
    ensures
        final(buf)@ == old(buf)@ + byte_out(h@, pos as int, sep, eol),
{
    let b = *vstd::slice::slice_index_get(h, pos);
    if b == sep {
        if pos > 0 && *vstd::slice::slice_index_get(h, pos - 1) == BACKSLASH {
            buf.push(BACKSLASH);
        }
        buf.push(QUOTE);
        buf.push(COMMA);
        buf.push(QUOTE);
    } else if b == eol {
        if pos > 0 && *vstd::slice::slice_index_get(h, pos - 1) == BACKSLASH {
            buf.push(BACKSLASH);
        }
        buf.push(QUOTE);
        buf.push(NEWLINE);
        buf.push(QUOTE);
    } else if b == QUOTE {
        buf.push(BACKSLASH);
        buf.push(QUOTE);
    } else {
        buf.push(b);
    }
    proof {
        assert(buf@ =~= old(buf)@ + byte_out(h@, pos as int, sep, eol));
    }
}

/// Transcoding a prefix one byte further appends that byte's output.
proof fn lemma_step(h: Seq<u8>, n: int, sep: u8, eol: u8)
    requires
        0 <= n,
    ensures
        transcoded_prefix(h, n + 1, sep, eol) == transcoded_prefix(h, n, sep, eol) + byte_out(
            h,
            n,
            sep,
            eol,
        ),
{
}

/// Transcodes one chunk, appending to `buf`.
///
/// Every occurrence of `sep` becomes `","`, every occurrence of `eol`
/// becomes `"\n"` (each preceded by an extra backslash when the byte just
/// before it in this chunk is a backslash), every literal double quote
/// becomes `\"`, and all other bytes are copied unchanged, in input order.
pub fn exorcize_csv_batch(haystack: &[u8], buf: &mut Vec<u8>, sep: u8, eol: u8)
    ensures
        final(buf)@ == old(buf)@ + transcoded(haystack@, sep, eol),
{
    let ghost orig = buf@;
    let len = haystack.len();
    let mut idx: usize = 0;
    loop
        invariant_except_break
            idx <= len,
            len == haystack@.len(),
            buf@ == orig + transcoded_prefix(haystack@, idx as int, sep, eol),
        ensures
            buf@ == orig + transcoded(haystack@, sep, eol),
        decreases len - idx,
    {
        let sub = slice_subrange(haystack, idx, len);
        match find_special(sep, eol, QUOTE, sub) {
            None => {
                proof {
                    assert forall|j: int| idx <= j < len implies haystack@[j] != sep && haystack@[j]
                        != eol && haystack@[j] != QUOTE by {
                        assert(sub@[j - idx] == haystack@[j]);
                    }
                }
                push_range(buf, haystack, idx, len);
                proof {
                    lemma_plain_span(haystack@, idx as int, len as int, sep, eol);
                    assert(buf@ =~= orig + transcoded_prefix(haystack@, len as int, sep, eol));
                }
                break ;
            },
            Some(p) => {
                let pos = idx + p;
                proof {
                    assert(sub@[p as int] == haystack@[pos as int]);
                    assert forall|j: int| idx <= j < pos implies haystack@[j] != sep && haystack@[j]
                        != eol && haystack@[j] != QUOTE by {
                        assert(sub@[j - idx] == haystack@[j]);
                    }
                }
                push_range(buf, haystack, idx, pos);
                proof {
                    lemma_plain_span(haystack@, idx as int, pos as int, sep, eol);
                    assert(buf@ =~= orig + transcoded_prefix(haystack@, pos as int, sep, eol));
                }
                emit_match(buf, haystack, pos, sep, eol);
                proof {
                    lemma_step(haystack@, pos as int, sep, eol);
                    assert(buf@ =~= orig + transcoded_prefix(haystack@, pos + 1, sep, eol));
                }
                idx = pos + 1;
            },
        }
    }
}

/// Resolves the dangling quote left at end of stream.
///
/// The per-chunk convention always reopens a quote after a separator or
/// terminator. Once the input is exhausted, a reopening quote right after
/// a newline is dropped (the stream ended on a record boundary), a buffer
/// ending in a newline is already well formed, and anything else is an
/// open field that gets its closing quote appended.
pub fn handle_closing(out: &mut Vec<u8>)
    ensures
        final(out)@ == crate::model::close_normalized(old(out)@),
{
    let len = out.len();
    if len > 1 {
        let last = *vstd::slice::slice_index_get(out.as_slice(), len - 1);
        if last == QUOTE {
            if *vstd::slice::slice_index_get(out.as_slice(), len - 2) == NEWLINE {
                out.pop();
                proof {
                    assert(out@ =~= crate::model::close_normalized(old(out)@));
                }
            }
        } else if last == NEWLINE {
        } else {
            out.push(QUOTE);
        }
    }
}

} // verus!
