//! Length-delimited framing: a fixed-width big-endian length field, optionally
//! preceded by an offset region, followed by the payload.

use vstd::prelude::*;
use vstd::arithmetic::div_mod::lemma_mod_breakdown;

use crate::error::CodecError;

verus! {

/// 256 raised to the power `k`.
pub open spec fn pow256(k: nat) -> nat
    decreases k,
{
    if k == 0 {
        1
    } else {
        256 * pow256((k - 1) as nat)
    }
}

/// The unsigned integer that the bytes of `s` spell, most significant first.
pub open spec fn be_value(s: Seq<u8>) -> nat
    decreases s.len(),
{
    if s.len() == 0 {
        0
    } else {
        be_value(s.drop_last()) * 256 + s.last() as nat
    }
}

/// The `k` low-order bytes of `n`, most significant first.
pub open spec fn be_bytes(n: nat, k: nat) -> Seq<u8>
    decreases k,
{
    if k == 0 {
        Seq::empty()
    } else {
        be_bytes(n / 256, (k - 1) as nat).push((n % 256) as u8)
    }
}

proof fn lemma_pow256_pos(k: nat)
    ensures
        pow256(k) > 0,
    decreases k,
{
    if k > 0 {
        lemma_pow256_pos((k - 1) as nat);
    }
}

proof fn lemma_pow256_mono(a: nat, b: nat)
    requires
        a <= b,
    ensures
        pow256(a) <= pow256(b),
    decreases b,
{
    if a < b {
        lemma_pow256_mono(a, (b - 1) as nat);
    }
}

proof fn lemma_pow256_8()
    ensures
        pow256(8) == 0x1_0000_0000_0000_0000,
{
    reveal_with_fuel(pow256, 9);
}

proof fn lemma_be_value_bound(s: Seq<u8>)
    ensures
        be_value(s) < pow256(s.len()),
    decreases s.len(),
{
    if s.len() > 0 {
        let v = be_value(s.drop_last());
        let p = pow256((s.len() - 1) as nat);
        let b = s.last() as nat;
        lemma_be_value_bound(s.drop_last());
        assert(v * 256 + b < 256 * p) by (nonlinear_arith)
            requires
                v < p,
                b < 256,
        ;
    }
}

pub(crate) proof fn lemma_be_len(n: nat, k: nat)
    ensures
        be_bytes(n, k).len() == k,
    decreases k,
{
    if k > 0 {
        lemma_be_len(n / 256, (k - 1) as nat);
    }
}

/// Writing `n` on `k` bytes and reading them back gives `n` modulo `256^k`.
pub(crate) proof fn lemma_be_round_trip(n: nat, k: nat)
    ensures
        be_value(be_bytes(n, k)) == n % pow256(k),
    decreases k,
{
    if k == 0 {
        assert(n % 1 == 0);
    } else {
        let k1 = (k - 1) as nat;
        lemma_be_round_trip(n / 256, k1);
        lemma_pow256_pos(k1);
        lemma_mod_breakdown(n as int, 256, pow256(k1) as int);
        assert(be_bytes(n, k).drop_last() == be_bytes(n / 256, k1));
    }
}

/// Appends the `k` low-order bytes of `n` to `dst`, most significant first.
fn push_be(n: u64, k: usize, dst: &mut Vec<u8>)
    ensures
        final(dst)@ == old(dst)@ + be_bytes(n as nat, k as nat),
    decreases k,
{
    if k > 0 {
        push_be(n / 256, k - 1, dst);
        dst.push((n % 256) as u8);
        assert(final(dst)@ =~= old(dst)@ + be_bytes(n as nat, k as nat));
    } else {
        assert(final(dst)@ =~= old(dst)@ + be_bytes(n as nat, k as nat));
    }
}

/// Reads the big-endian integer held by `s[start..start + k]`.
fn read_be(s: &[u8], start: usize, k: usize) -> (r: u64)
    requires
        k <= 8,
        start + k <= s@.len(),
    ensures
        r as nat == be_value(s@.subrange(start as int, start + k)),
{
    let len = s.len();
    let mut v: u64 = 0;
    let mut i: usize = 0;
    while i < k
        invariant
            i <= k <= 8,
            start + k <= s@.len() == len,
            v as nat == be_value(s@.subrange(start as int, start + i)),
        decreases k - i,
    {
        let ghost sub = s@.subrange(start as int, start + i + 1);
        proof {
            assert(sub.drop_last() =~= s@.subrange(start as int, start + i));
            lemma_be_value_bound(sub);
            lemma_pow256_mono((i + 1) as nat, 8);
            lemma_pow256_8();
            assert(be_value(sub) == v * 256 + s@[start + i]);
        }
        v = v * 256 + s[start + i] as u64;
        i = i + 1;
    }
    v
}


/// The framing parameters, as plain numbers.
pub struct FrameParams {
    /// The largest payload length accepted.
    pub max_frame_length: nat,
    /// The width in bytes of the length field.
    pub length_field_length: nat,
    /// The number of bytes that precede the length field.
    pub length_field_offset: nat,
}

/// What one decode step yields: a payload, "not yet", or an error.
pub type Step = Result<Option<Seq<u8>>, CodecError>;

impl FrameParams {
    pub open spec fn valid(self) -> bool {
        1 <= self.length_field_length <= 8
    }

    /// Bytes before the payload: the offset region and the length field.
    pub open spec fn head_len(self) -> nat {
        self.length_field_offset + self.length_field_length
    }

    /// The payload length declared by the length field at the front of `s`.
    pub open spec fn declared_len(self, s: Seq<u8>) -> nat {
        be_value(
            s.subrange(self.length_field_offset as int, self.head_len() as int),
        )
    }

    /// One decode step on the accumulated bytes `s`: what it yields and the bytes
    /// that remain buffered afterwards.
    pub open spec fn split(self, s: Seq<u8>) -> (Step, Seq<u8>) {
        let head = self.head_len();
        if s.len() < head {
            (Ok(None), s)
        } else if self.declared_len(s) > self.max_frame_length {
            (Err(CodecError::FrameTooLarge), s)
        } else if s.len() < head + self.declared_len(s) {
            (Ok(None), s)
        } else {
            let end = head + self.declared_len(s);
            (Ok(Some(s.subrange(head as int, end as int))), s.subrange(end as int, s.len() as int))
        }
    }

    /// Whether a payload of `len` bytes can be framed.
    pub open spec fn fits(self, len: nat) -> bool {
        len <= self.max_frame_length && len < pow256(self.length_field_length)
    }

    /// The frame that carries payload `p`: a zero-filled offset region, the
    /// big-endian length, then the payload.
    pub open spec fn frame(self, p: Seq<u8>) -> Seq<u8> {
        Seq::new(self.length_field_offset, |i: int| 0u8) + be_bytes(
            p.len(),
            self.length_field_length,
        ) + p
    }
}

/// The decode step of a call, with the payload seen as a sequence.
pub open spec fn step_of(r: Result<Option<Vec<u8>>, CodecError>) -> Step {
    match r {
        Ok(Some(p)) => Ok(Some(p@)),
        Ok(None) => Ok(None),
        Err(e) => Err(e),
    }
}

/// `256^k` for `k <= 8`.
fn pow256_exec(k: usize) -> (r: u128)
    requires
        k <= 8,
    ensures
        r as nat == pow256(k as nat),
{
    let mut r: u128 = 1;
    let mut i: usize = 0;
    while i < k
        invariant
            i <= k <= 8,
            r as nat == pow256(i as nat),
        decreases k - i,
    {
        proof {
            lemma_pow256_mono((i + 1) as nat, 8);
            lemma_pow256_8();
        }
        r = r * 256;
        i = i + 1;
    }
    r
}

/// A length-delimited frame splitter with fixed parameters.
pub struct FrameCodec {
    max_frame_length: usize,
    length_field_length: usize,
    length_field_offset: usize,
}

impl View for FrameCodec {
    type V = FrameParams;

    closed spec fn view(&self) -> FrameParams {
        FrameParams {
            max_frame_length: self.max_frame_length as nat,
            length_field_length: self.length_field_length as nat,
            length_field_offset: self.length_field_offset as nat,
        }
    }
}

impl FrameCodec {
    #[verifier::type_invariant]
    closed spec fn inv(self) -> bool {
        1 <= self.length_field_length <= 8
    }

    pub fn new(max_frame_length: usize, length_field_length: usize, length_field_offset: usize) -> (r: Self)
        requires
            1 <= length_field_length <= 8,
        ensures
            r@ == (FrameParams {
                max_frame_length: max_frame_length as nat,
                length_field_length: length_field_length as nat,
                length_field_offset: length_field_offset as nat,
            }),
            r@.valid(),
    {
        FrameCodec { max_frame_length, length_field_length, length_field_offset }
    }

    pub fn max_frame_length(&self) -> (r: usize)
        ensures
            r as nat == self@.max_frame_length,
            self@.valid(),
    {
        proof {
            use_type_invariant(self);
        }
        self.max_frame_length
    }

    pub fn length_field_length(&self) -> (r: usize)
        ensures
            r as nat == self@.length_field_length,
            self@.valid(),
    {
        proof {
            use_type_invariant(self);
        }
        self.length_field_length
    }

    pub fn length_field_offset(&self) -> (r: usize)
        ensures
            r as nat == self@.length_field_offset,
            self@.valid(),
    {
        proof {
            use_type_invariant(self);
        }
        self.length_field_offset
    }

    pub fn set_max_frame_length(&mut self, val: usize)
        ensures
            final(self)@ == (FrameParams { max_frame_length: val as nat, ..old(self)@ }),
    {
        proof {
            use_type_invariant(&*self);
        }
        self.max_frame_length = val;
    }

    /// Takes the next complete frame off the front of `src` and returns its
    /// payload; returns `None` while the frame is incomplete.
    pub fn decode_frame(&self, src: &mut Vec<u8>) -> (r: Result<Option<Vec<u8>>, CodecError>)
        ensures
            (step_of(r), final(src)@) == self@.split(old(src)@),
    {
        proof {
            use_type_invariant(self);
        }
        let len = src.len();
        let off = self.length_field_offset;
        let width = self.length_field_length;
        if off > len || width > len - off {
            return Ok(None);
        }
        let head = off + width;
        let n = read_be(src.as_slice(), off, width);
        if n > self.max_frame_length as u64 {
            return Err(CodecError::FrameTooLarge);
        }
        let n = n as usize;
        if n > len - head {
            return Ok(None);
        }
        let end = head + n;
        let ghost s0 = src@;
        let rest = src.split_off(end);
        let payload = src.split_off(head);
        *src = rest;
        assert(payload@ =~= s0.subrange(head as int, end as int));
        Ok(Some(payload))
    }

    /// Appends the frame that carries `payload` to `dst`.
    pub fn encode_frame(&self, payload: &[u8], dst: &mut Vec<u8>) -> (r: Result<(), CodecError>)
        ensures
            self@.fits(payload@.len()) ==> r is Ok && final(dst)@ == old(dst)@ + self@.frame(payload@),
            !self@.fits(payload@.len()) ==> r == Err::<(), CodecError>(CodecError::FrameTooLarge)
                && final(dst)@ == old(dst)@,
    {
        proof {
            use_type_invariant(self);
        }
        let n = payload.len();
        if n > self.max_frame_length || n as u128 >= pow256_exec(self.length_field_length) {
            return Err(CodecError::FrameTooLarge);
        }
        let ghost start = dst@;
        let mut i: usize = 0;
        while i < self.length_field_offset
            invariant
                i <= self.length_field_offset,
                dst@ == start + Seq::new(i as nat, |j: int| 0u8),
            decreases self.length_field_offset - i,
        {
            dst.push(0u8);
            i = i + 1;
            assert(dst@ =~= start + Seq::new(i as nat, |j: int| 0u8));
        }
        push_be(n as u64, self.length_field_length, dst);
        let ghost mid = dst@;
        let mut j: usize = 0;
        while j < n
            invariant
                j <= n == payload@.len(),
                dst@ == mid + payload@.subrange(0, j as int),
            decreases n - j,
        {
            dst.push(payload[j]);
            j = j + 1;
            assert(dst@ =~= mid + payload@.subrange(0, j as int));
        }
        assert(payload@.subrange(0, n as int) =~= payload@);
        assert(dst@ =~= start + self@.frame(payload@));
        Ok(())
    }
}

} // verus!
