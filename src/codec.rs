//! The MessagePack codec: values in, frames out, and back.

use vstd::prelude::*;

use crate::error::CodecError;
use crate::frame::{FrameCodec, FrameParams, Step};
use crate::stream::lemma_frame_round_trip;
use crate::value::{msgpack_decoding, msgpack_encoding, read_msgpack, write_msgpack};

verus! {

/// What decoding yields once a decode step has produced `step`.
pub open spec fn value_step(step: Step) -> Result<Option<rmpv::Value>, CodecError> {
    match step {
        Err(e) => Err(e),
        Ok(None) => Ok(None),
        Ok(Some(p)) => match msgpack_decoding(p) {
            Some(v) => Ok(Some(v)),
            None => Err(CodecError::Decode),
        },
    }
}

/// Decoding the frame that encode writes for `v` yields what rmpv reads back
/// from exactly the bytes that rmpv wrote for `v`, and leaves buffered what
/// followed the frame.
pub proof fn lemma_value_round_trip(p: FrameParams, v: rmpv::Value, rest: Seq<u8>)
    requires
        p.valid(),
        p.fits(msgpack_encoding(v).len()),
    ensures
        p.split(p.frame(msgpack_encoding(v)) + rest).1 == rest,
        value_step(p.split(p.frame(msgpack_encoding(v)) + rest).0) == match msgpack_decoding(
            msgpack_encoding(v),
        ) {
            Some(w) => Ok(Some(w)),
            None => Err(CodecError::Decode),
        },
{
    lemma_frame_round_trip(p, msgpack_encoding(v), rest);
}

/// Turns a byte stream into MessagePack values and back. Each value travels
/// in one frame, prefixed by its length as a big-endian integer.
pub struct MsgPackCodec {
    inner: FrameCodec,
}

impl View for MsgPackCodec {
    type V = FrameParams;

    closed spec fn view(&self) -> FrameParams {
        self.inner@
    }
}

impl MsgPackCodec {
    /// A builder with the default parameters.
    pub fn builder() -> (r: Builder)
        ensures
            r@ == Builder::default_params(),
    {
        Builder::new()
    }

    pub fn max_frame_length(&self) -> (r: usize)
        ensures
            r as nat == self@.max_frame_length,
            self@.valid(),
    {
        self.inner.max_frame_length()
    }

    pub fn set_max_frame_length(&mut self, val: usize)
        ensures
            final(self)@ == (FrameParams { max_frame_length: val as nat, ..old(self)@ }),
    {
        self.inner.set_max_frame_length(val)
    }

    /// A codec with the default parameters.
    pub fn new() -> (r: Self)
        ensures
            r@ == Builder::default_params(),
            r@.valid(),
    {
        Builder::new().build()
    }

    /// Serializes `data` and appends its frame to `dst`.
    pub fn encode(&mut self, data: rmpv::Value, dst: &mut Vec<u8>) -> (r: Result<(), CodecError>)
        ensures
            final(self)@ == old(self)@,
            r is Ok <==> old(self)@.fits(msgpack_encoding(data).len()),
            r is Ok ==> final(dst)@ == old(dst)@ + old(self)@.frame(msgpack_encoding(data)),
            r is Err ==> r == Err::<(), CodecError>(CodecError::FrameTooLarge) && final(dst)@ == old(dst)@,
    {
        match write_msgpack(&data) {
            None => Err(CodecError::Serialization),
            Some(buf) => self.inner.encode_frame(buf.as_slice(), dst),
        }
    }

    /// Takes the next complete frame off the front of `src` and parses its
    /// payload; returns `None` while the frame is incomplete.
    pub fn decode(&mut self, src: &mut Vec<u8>) -> (r: Result<Option<rmpv::Value>, CodecError>)
        ensures
            final(self)@ == old(self)@,
            final(src)@ == old(self)@.split(old(src)@).1,
            r == value_step(old(self)@.split(old(src)@).0),
    {
        match self.inner.decode_frame(src) {
            Err(e) => Err(e),
            Ok(None) => Ok(None),
            Ok(Some(payload)) => match read_msgpack(payload.as_slice()) {
                Some(v) => Ok(Some(v)),
                None => Err(CodecError::Decode),
            },
        }
    }
}

/// Collects framing parameters, then builds a codec from them.
pub struct Builder {
    max_frame_length: usize,
    length_field_length: usize,
    length_field_offset: usize,
}

impl View for Builder {
    type V = FrameParams;

    closed spec fn view(&self) -> FrameParams {
        FrameParams {
            max_frame_length: self.max_frame_length as nat,
            length_field_length: self.length_field_length as nat,
            length_field_offset: self.length_field_offset as nat,
        }
    }
}

impl Builder {
    #[verifier::type_invariant]
    closed spec fn inv(self) -> bool {
        1 <= self.length_field_length <= 8
    }

    /// No payload limit, a four-byte length field, no offset.
    pub open spec fn default_params() -> FrameParams {
        FrameParams {
            max_frame_length: usize::MAX as nat,
            length_field_length: 4,
            length_field_offset: 0,
        }
    }

    pub fn new() -> (r: Self)
        ensures
            r@ == Self::default_params(),
    {
        Builder { max_frame_length: usize::MAX, length_field_length: 4, length_field_offset: 0 }
    }

    pub fn max_frame_length(&mut self, val: usize) -> (r: &mut Self)
        ensures
            r@ == (FrameParams { max_frame_length: val as nat, ..old(self)@ }),
            *final(self) == *final(r),
    {
        proof {
            use_type_invariant(&*self);
        }
        self.max_frame_length = val;
        self
    }

    /// Sets the width of the length field, from one to eight bytes.
    pub fn length_field_length(&mut self, val: usize) -> (r: &mut Self)
        requires
            1 <= val <= 8,
        ensures
            r@ == (FrameParams { length_field_length: val as nat, ..old(self)@ }),
            *final(self) == *final(r),
    {
        self.length_field_length = val;
        self
    }

    pub fn length_field_offset(&mut self, val: usize) -> (r: &mut Self)
        ensures
            r@ == (FrameParams { length_field_offset: val as nat, ..old(self)@ }),
            *final(self) == *final(r),
    {
        proof {
            use_type_invariant(&*self);
        }
        self.length_field_offset = val;
        self
    }

    /// A codec with the parameters collected so far.
    pub fn build(&self) -> (r: MsgPackCodec)
        ensures
            r@ == self@,
            r@.valid(),
    {
        proof {
            use_type_invariant(self);
        }
        MsgPackCodec {
            inner: FrameCodec::new(self.max_frame_length, self.length_field_length, self.length_field_offset),
        }
    }
}

impl Default for Builder {
    fn default() -> (r: Self)
        ensures
            r@ == Builder::default_params(),
    {
        Builder::new()
    }
}

impl From<Builder> for MsgPackCodec {
    fn from(params: Builder) -> (r: Self)
        ensures
            r@ == params@,
    {
        params.build()
    }
}

impl vstd::std_specs::convert::FromSpecImpl<Builder> for MsgPackCodec {
    open spec fn obeys_from_spec() -> bool {
        false
    }

    open spec fn from_spec(v: Builder) -> Self {
        arbitrary()
    }
}

} // verus!
