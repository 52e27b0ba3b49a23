//! Laws of the frame splitter over a whole stream.

use vstd::prelude::*;
use vstd::arithmetic::div_mod::lemma_small_mod;

use crate::error::CodecError;
use crate::frame::{FrameParams, be_bytes, lemma_be_len, lemma_be_round_trip};

verus! {

/// A frame carrying a payload that fits is decoded back to that payload, and
/// whatever followed the frame stays buffered.
pub proof fn lemma_frame_round_trip(p: FrameParams, payload: Seq<u8>, rest: Seq<u8>)
    requires
        p.valid(),
        p.fits(payload.len()),
    ensures
        p.split(p.frame(payload) + rest) == (Ok::<Option<Seq<u8>>, CodecError>(Some(payload)), rest),
{
    lemma_frame_header(p, payload, rest);
    lemma_small_mod(payload.len(), crate::frame::pow256(p.length_field_length));
    let s = p.frame(payload) + rest;
    let head = p.head_len();
    let n = payload.len();
    assert(s.subrange(head as int, (head + n) as int) =~= payload);
    assert(s.subrange((head + n) as int, s.len() as int) =~= rest);
}

/// The length field of a frame declares the payload's length modulo the
/// field's range.
proof fn lemma_frame_header(p: FrameParams, payload: Seq<u8>, rest: Seq<u8>)
    requires
        p.valid(),
    ensures
        (p.frame(payload) + rest).len() == p.head_len() + payload.len() + rest.len(),
        p.declared_len(p.frame(payload) + rest) == payload.len() % crate::frame::pow256(
            p.length_field_length,
        ),
{
    let s = p.frame(payload) + rest;
    let off = p.length_field_offset;
    lemma_be_len(payload.len(), p.length_field_length);
    assert(s.subrange(off as int, p.head_len() as int) =~= be_bytes(
        payload.len(),
        p.length_field_length,
    ));
    lemma_be_round_trip(payload.len(), p.length_field_length);
}

/// A payload longer than the maximum is refused by encode, and a frame that
/// declares it is refused by decode, which then keeps every byte.
pub proof fn lemma_oversized(p: FrameParams, payload: Seq<u8>, rest: Seq<u8>)
    requires
        p.valid(),
        payload.len() > p.max_frame_length,
        payload.len() < crate::frame::pow256(p.length_field_length),
    ensures
        !p.fits(payload.len()),
        p.split(p.frame(payload) + rest) == (
            Err::<Option<Seq<u8>>, CodecError>(CodecError::FrameTooLarge),
            p.frame(payload) + rest,
        ),
{
    lemma_frame_header(p, payload, rest);
    lemma_small_mod(payload.len(), crate::frame::pow256(p.length_field_length));
}

/// A decode step that finds no complete frame consumes nothing, so repeating it
/// without new bytes gives the same answer again.
pub proof fn lemma_incomplete_idempotent(p: FrameParams, s: Seq<u8>)
    requires
        p.split(s).0 == Ok::<Option<Seq<u8>>, CodecError>(None),
    ensures
        p.split(s).1 == s,
        p.split(p.split(s).1) == p.split(s),
{
}

/// A failed decode step consumes nothing, and keeps failing whatever arrives
/// after it: the caller has to drop the buffered bytes to go on.
pub proof fn lemma_rejection_sticks(p: FrameParams, s: Seq<u8>, t: Seq<u8>)
    requires
        p.split(s).0 is Err,
    ensures
        p.split(s).1 == s,
        p.split(s + t) == (p.split(s).0, s + t),
{
    lemma_split_extend(p, s, t);
}

/// Appending bytes after a buffer does not change a frame or an error found at
/// its front.
pub proof fn lemma_split_extend(p: FrameParams, s: Seq<u8>, t: Seq<u8>)
    ensures
        p.split(s).0 is Ok && p.split(s).0->Ok_0 is Some ==> p.split(s + t) == (
            p.split(s).0,
            p.split(s).1 + t,
        ),
        p.split(s).0 is Err ==> p.split(s + t) == (p.split(s).0, s + t),
{
    let head = p.head_len();
    let st = s + t;
    if s.len() >= head {
        assert(st.subrange(p.length_field_offset as int, head as int) =~= s.subrange(
            p.length_field_offset as int,
            head as int,
        ));
        let end = head + p.declared_len(s);
        if s.len() >= end {
            assert(st.subrange(head as int, end as int) =~= s.subrange(head as int, end as int));
            assert(st.subrange(end as int, st.len() as int) =~= s.subrange(end as int, s.len() as int)
                + t);
        }
    }
}


/// Decoding `s` step after step until a step yields no frame: the payloads in
/// order, the bytes left buffered, and whether the last step failed.
pub open spec fn drain(p: FrameParams, s: Seq<u8>) -> (Seq<Seq<u8>>, Seq<u8>, bool)
    decreases s.len(),
{
    let (step, rest) = p.split(s);
    match step {
        Ok(Some(x)) => if rest.len() < s.len() {
            let (xs, left, failed) = drain(p, rest);
            (seq![x] + xs, left, failed)
        } else {
            (seq![x], rest, false)
        },
        Ok(None) => (Seq::empty(), s, false),
        Err(_) => (Seq::empty(), s, true),
    }
}

/// Appending each chunk of `chunks` in turn to the buffer `acc`, and draining the
/// buffer after each one; stops at the first failure.
pub open spec fn feed(p: FrameParams, acc: Seq<u8>, chunks: Seq<Seq<u8>>) -> (
    Seq<Seq<u8>>,
    Seq<u8>,
    bool,
)
    decreases chunks.len(),
{
    if chunks.len() == 0 {
        (Seq::empty(), acc, false)
    } else {
        let (xs, left, failed) = drain(p, acc + chunks[0]);
        if failed {
            (xs, left, true)
        } else {
            let (ys, left2, failed2) = feed(p, left, chunks.drop_first());
            (xs + ys, left2, failed2)
        }
    }
}

/// Two runs yield the same payloads and fail alike; where neither fails they
/// leave the same bytes buffered.
pub open spec fn same_outcome(a: (Seq<Seq<u8>>, Seq<u8>, bool), b: (Seq<Seq<u8>>, Seq<u8>, bool)) -> bool {
    a.0 == b.0 && a.2 == b.2 && (!a.2 ==> a.1 == b.1)
}

proof fn lemma_head_positive(p: FrameParams, s: Seq<u8>)
    requires
        p.valid(),
    ensures
        p.split(s).0 is Ok && p.split(s).0->Ok_0 is Some ==> p.split(s).1.len() < s.len(),
{
}

/// What draining leaves behind holds no complete frame.
proof fn lemma_drain_settled(p: FrameParams, s: Seq<u8>)
    requires
        p.valid(),
        !drain(p, s).2,
    ensures
        p.split(drain(p, s).1).0 == Ok::<Option<Seq<u8>>, CodecError>(None),
    decreases s.len(),
{
    lemma_head_positive(p, s);
    let (step, rest) = p.split(s);
    if step is Ok && step->Ok_0 is Some {
        lemma_drain_settled(p, rest);
    }
}

/// Draining `s + t` drains `s` first, then what it left with `t` behind it.
proof fn lemma_drain_extend(p: FrameParams, s: Seq<u8>, t: Seq<u8>)
    requires
        p.valid(),
    ensures
        !drain(p, s).2 ==> same_outcome(
            drain(p, s + t),
            (
                drain(p, s).0 + drain(p, drain(p, s).1 + t).0,
                drain(p, drain(p, s).1 + t).1,
                drain(p, drain(p, s).1 + t).2,
            ),
        ),
        drain(p, s).2 ==> drain(p, s + t).0 == drain(p, s).0 && drain(p, s + t).2,
    decreases s.len(),
{
    lemma_head_positive(p, s);
    lemma_head_positive(p, s + t);
    lemma_split_extend(p, s, t);
    let (step, rest) = p.split(s);
    match step {
        Ok(Some(x)) => {
            lemma_drain_extend(p, rest, t);
            let d = drain(p, rest);
            let e = drain(p, d.1 + t);
            assert(seq![x] + (d.0 + e.0) =~= (seq![x] + d.0) + e.0);
        },
        Ok(None) => {
            assert(Seq::<Seq<u8>>::empty() + drain(p, s + t).0 =~= drain(p, s + t).0);
        },
        Err(_) => {},
    }
}

/// Feeding a buffer that holds no complete frame chunk by chunk matches draining
/// the buffer with all chunks appended at once.
proof fn lemma_feed_drain(p: FrameParams, acc: Seq<u8>, chunks: Seq<Seq<u8>>)
    requires
        p.valid(),
        p.split(acc).0 == Ok::<Option<Seq<u8>>, CodecError>(None),
    ensures
        same_outcome(feed(p, acc, chunks), drain(p, acc + chunks.flatten())),
    decreases chunks.len(),
{
    if chunks.len() == 0 {
        assert(acc + chunks.flatten() =~= acc);
    } else {
        let c = chunks[0];
        let tail = chunks.drop_first();
        assert(acc + chunks.flatten() =~= (acc + c) + tail.flatten());
        lemma_drain_extend(p, acc + c, tail.flatten());
        let d = drain(p, acc + c);
        if !d.2 {
            lemma_drain_settled(p, acc + c);
            lemma_feed_drain(p, d.1, tail);
        }
    }
}

/// Delivering a stream in chunks, and decoding after each chunk until no frame
/// is complete, yields the same payloads as decoding the whole stream at once;
/// it fails if and only if that does, and otherwise leaves the same bytes
/// buffered.
pub proof fn lemma_chunked_delivery(p: FrameParams, chunks: Seq<Seq<u8>>)
    requires
        p.valid(),
    ensures
        same_outcome(feed(p, Seq::empty(), chunks), drain(p, chunks.flatten())),
{
    lemma_feed_drain(p, Seq::empty(), chunks);
    assert(Seq::<u8>::empty() + chunks.flatten() =~= chunks.flatten());
}

/// Two frames delivered together decode one after the other, each to its own
/// payload, and leave nothing buffered.
pub proof fn lemma_pipelined(p: FrameParams, a: Seq<u8>, b: Seq<u8>)
    requires
        p.valid(),
        p.fits(a.len()),
        p.fits(b.len()),
    ensures
        p.split(p.frame(a) + p.frame(b)) == (Ok::<Option<Seq<u8>>, CodecError>(Some(a)), p.frame(b)),
        p.split(p.frame(b)) == (Ok::<Option<Seq<u8>>, CodecError>(Some(b)), Seq::<u8>::empty()),
        drain(p, p.frame(a) + p.frame(b)) == (seq![a, b], Seq::<u8>::empty(), false),
{
    lemma_frame_round_trip(p, a, p.frame(b));
    lemma_frame_round_trip(p, b, Seq::empty());
    assert(p.frame(b) + Seq::<u8>::empty() =~= p.frame(b));
    let e = Seq::<u8>::empty();
    assert(p.split(e).0 == Ok::<Option<Seq<u8>>, CodecError>(None));
    lemma_head_positive(p, p.frame(a) + p.frame(b));
    lemma_head_positive(p, p.frame(b));
    assert(drain(p, e) == (Seq::<Seq<u8>>::empty(), e, false));
    assert(drain(p, p.frame(b)) == (seq![b] + Seq::<Seq<u8>>::empty(), e, false));
    assert(seq![b] + Seq::<Seq<u8>>::empty() =~= seq![b]);
    assert(drain(p, p.frame(a) + p.frame(b)) == (seq![a] + seq![b], e, false));
    assert(seq![a] + seq![b] =~= seq![a, b]);
}

} // verus!
