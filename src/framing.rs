//! The line framing model: how complete lines are taken from the front of a
//! byte buffer under a maximum line length, and what that means for a stream
//! that arrives in pieces.
//!
//! A line ends at the first `\n`; the `\n` and one `\r` just before it are
//! not part of the line. A line is taken only when its `\n` lies within the
//! first `limit + 1` bytes; a buffer longer than `limit` with no such `\n`
//! holds an over-long line.
use vstd::prelude::*;

verus! {

pub const NEWLINE: u8 = 0x0a;

pub const CARRIAGE_RETURN: u8 = 0x0d;

/// No byte of `b` in `lo..hi` is a newline.
pub open spec fn no_newline(b: Seq<u8>, lo: int, hi: int) -> bool {
    forall|j: int| lo <= j < hi ==> #[trigger] b[j] != NEWLINE
}

/// `b[i]` is the first newline of `b`.
pub open spec fn ends_line_at(b: Seq<u8>, i: int) -> bool {
    0 <= i < b.len() && b[i] == NEWLINE && no_newline(b, 0, i)
}

/// The line's text without one trailing carriage return.
pub open spec fn without_cr(l: Seq<u8>) -> Seq<u8> {
    if l.len() > 0 && l.last() == CARRIAGE_RETURN {
        l.drop_last()
    } else {
        l
    }
}

/// The index of the newline that ends the first line of `b`, if that line
/// is complete and no longer than `limit`.
pub open spec fn line_end(limit: nat, b: Seq<u8>) -> Option<int> {
    if exists|i: int| ends_line_at(b, i) && i <= limit {
        Some(choose|i: int| ends_line_at(b, i) && i <= limit)
    } else {
        None
    }
}

/// What the framer finds at the front of a buffer.
pub enum Framed {
    /// A complete line (without its terminator), and the bytes after it.
    Line(Seq<u8>, Seq<u8>),
    /// No complete line yet; the buffer is kept as it is.
    Pending(Seq<u8>),
    /// More than `limit` bytes without a newline; the buffer is kept as it is.
    TooLong(Seq<u8>),
    /// The rest of an over-long line was dropped up to the end of the buffer.
    Dropped,
}

/// One framing step on `b`. While `discarding` (after an over-long line),
/// the bytes up to and including the next newline are dropped first.
pub open spec fn framed(limit: nat, discarding: bool, b: Seq<u8>) -> Framed {
    if discarding && !exists|i: int| ends_line_at(b, i) {
        Framed::Dropped
    } else {
        let v = if discarding {
            b.skip((choose|i: int| ends_line_at(b, i)) + 1)
        } else {
            b
        };
        match line_end(limit, v) {
            Some(i) => Framed::Line(without_cr(v.take(i)), v.skip(i + 1)),
            None => if v.len() > limit {
                Framed::TooLong(v)
            } else {
                Framed::Pending(v)
            },
        }
    }
}

/// The lines that repeated framing takes from `b`, what stays buffered, and
/// whether it stopped at an over-long line.
pub open spec fn drain(limit: nat, b: Seq<u8>) -> (Seq<Seq<u8>>, Seq<u8>, bool)
    decreases b.len(),
{
    match line_end(limit, b) {
        Some(i) => if 0 <= i < b.len() {
            let (lines, rest, failed) = drain(limit, b.skip(i + 1));
            (seq![without_cr(b.take(i))] + lines, rest, failed)
        } else {
            (Seq::empty(), b, false)
        },
        None => (Seq::empty(), b, b.len() > limit),
    }
}

/// Continues a drain with the bytes `c` that arrived after it.
pub open spec fn resume(
    limit: nat,
    done: (Seq<Seq<u8>>, Seq<u8>, bool),
    c: Seq<u8>,
) -> (Seq<Seq<u8>>, Seq<u8>, bool) {
    let (lines, rest, failed) = done;
    if failed {
        (lines, rest + c, true)
    } else {
        let (more, rest2, failed2) = drain(limit, rest + c);
        (lines + more, rest2, failed2)
    }
}

/// Drains a stream that arrives as the pieces `chunks`, one after another.
pub open spec fn drain_pieces(limit: nat, chunks: Seq<Seq<u8>>) -> (Seq<Seq<u8>>, Seq<u8>, bool)
    decreases chunks.len(),
{
    if chunks.len() == 0 {
        (Seq::empty(), Seq::empty(), false)
    } else {
        resume(limit, drain_pieces(limit, chunks.drop_last()), chunks.last())
    }
}

/// Each framing step outside of discarding takes the next line of the
/// drain, in order, or ends it: decoding step by step walks through
/// [`drain`].
pub proof fn lemma_framing_walks_drain(limit: nat, b: Seq<u8>)
    ensures
        match framed(limit, false, b) {
            Framed::Line(line, rest) => {
                let (lines, left, failed) = drain(limit, rest);
                &&& rest.len() < b.len()
                &&& drain(limit, b) == (seq![line] + lines, left, failed)
            },
            Framed::Pending(rest) => rest == b && drain(limit, b) == (Seq::<Seq<u8>>::empty(), b, false),
            Framed::TooLong(rest) => rest == b && drain(limit, b) == (Seq::<Seq<u8>>::empty(), b, true),
            Framed::Dropped => false,
        },
{
}

/// A line that is complete in `a` is the same line in `a + c`.
proof fn lemma_line_end_extends(limit: nat, a: Seq<u8>, c: Seq<u8>)
    requires
        line_end(limit, a) is Some,
    ensures
        line_end(limit, a + c) == line_end(limit, a),
{
    let i = line_end(limit, a)->0;
    assert(ends_line_at(a, i) && i <= limit);
    assert(ends_line_at(a + c, i));
    assert forall|j: int| ends_line_at(a + c, j) && j <= limit implies j == i by {
        if j < i {
            assert((a + c)[j] == a[j]);
        } else if j > i {
            assert((a + c)[i] == a[i]);
        }
    }
}

/// Without a complete line within the limit in `a`, the only line `a + c`
/// can hold within the limit ends in `c`; when `a` is already over the limit
/// there is none.
proof fn lemma_line_end_over_limit(limit: nat, a: Seq<u8>, c: Seq<u8>)
    requires
        line_end(limit, a) is None,
        a.len() > limit,
    ensures
        line_end(limit, a + c) is None,
{
    if exists|i: int| ends_line_at(a + c, i) && i <= limit {
        let i = choose|i: int| ends_line_at(a + c, i) && i <= limit;
        assert((a + c)[i] == a[i]);
        assert forall|j: int| 0 <= j < i implies #[trigger] a[j] != NEWLINE by {
            assert((a + c)[j] == a[j]);
        }
        assert(ends_line_at(a, i));
    }
}

/// Feeding `a` and then `c` takes the same lines, leaves the same bytes and
/// fails alike as feeding `a + c` at once.
pub proof fn lemma_drain_two_pieces(limit: nat, a: Seq<u8>, c: Seq<u8>)
    ensures
        drain(limit, a + c) == resume(limit, drain(limit, a), c),
    decreases a.len(),
{
    match line_end(limit, a) {
        Some(i) => {
            lemma_line_end_extends(limit, a, c);
            assert((a + c).skip(i + 1) =~= a.skip(i + 1) + c);
            assert((a + c).take(i) =~= a.take(i));
            lemma_drain_two_pieces(limit, a.skip(i + 1), c);
            let (l1, r1, f1) = drain(limit, a.skip(i + 1));
            if !f1 {
                let (l2, r2, f2) = drain(limit, r1 + c);
                assert(seq![without_cr(a.take(i))] + (l1 + l2) =~= (seq![without_cr(a.take(i))]
                    + l1) + l2);
            }
        },
        None => {
            if a.len() > limit {
                lemma_line_end_over_limit(limit, a, c);
            } else {
                assert(Seq::<Seq<u8>>::empty() + drain(limit, a + c).0 =~= drain(limit, a + c).0);
            }
        },
    }
}

/// Idempotence under chunking: a stream fed in any number of pieces yields
/// the same lines, in the same order, leaves the same bytes buffered and
/// fails at the same point as the whole stream fed in one buffer.
pub proof fn lemma_drain_pieces(limit: nat, chunks: Seq<Seq<u8>>)
    ensures
        drain_pieces(limit, chunks) == drain(limit, chunks.flatten()),
    decreases chunks.len(),
{
    if chunks.len() == 0 {
        assert(chunks.flatten() =~= Seq::<u8>::empty());
        assert(line_end(limit, Seq::<u8>::empty()) is None);
    } else {
        let init = chunks.drop_last();
        lemma_drain_pieces(limit, init);
        assert(init.push(chunks.last()) =~= chunks);
        init.lemma_flatten_push(chunks.last());
        lemma_drain_two_pieces(limit, init.flatten(), chunks.last());
    }
}

} // verus!
