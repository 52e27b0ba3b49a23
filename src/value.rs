//! MessagePack serialization of structured values, done by rmpv.

use vstd::prelude::*;

verus! {

#[verifier::external_type_specification]
#[verifier::external_body]
pub struct ExValue(rmpv::Value);

/// The bytes that rmpv writes for a value.
pub uninterp spec fn msgpack_encoding(v: rmpv::Value) -> Seq<u8>;

/// The value that rmpv reads from the front of a byte sequence, if it reads one.
pub uninterp spec fn msgpack_decoding(b: Seq<u8>) -> Option<rmpv::Value>;

/// Relies on `rmpv::encode::write_value`: it fails only when the writer fails,
/// and writing into a `Vec` never fails; the buffer then holds the MessagePack
/// encoding of `v`, which depends on `v` alone.
#[verifier::external_body]
pub(crate) fn write_msgpack(v: &rmpv::Value) -> (r: Option<Vec<u8>>)
    ensures
        r is Some,
        r matches Some(b) ==> b@ == msgpack_encoding(*v),
{
    let mut buf: Vec<u8> = Vec::new();
    match rmpv::encode::write_value(&mut buf, v) {
        Ok(()) => Some(buf),
        Err(_) => None,
    }
}

/// Relies on `rmpv::decode::read_value`: reads one value from the front of
/// `b`; whether it succeeds, and what it reads, depends on the bytes alone.
#[verifier::external_body]
pub(crate) fn read_msgpack(b: &[u8]) -> (r: Option<rmpv::Value>)
    ensures
        r == msgpack_decoding(b@),
{
    let mut rd: &[u8] = b;
    rmpv::decode::read_value(&mut rd).ok()
}

} // verus!
