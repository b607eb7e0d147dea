//! The byte buffers of the `bytes` crate, as this library uses them.
//!
//! A `Bytes` or `BytesMut` is opaque to the verifier; what it holds is named by
//! `bytes_view` and `bytes_mut_view`, and every operation the library performs on one goes
//! through a function below whose contract says what it does to those contents.
use vstd::prelude::*;
use vstd::utf8::*;

verus! {

#[verifier::external_type_specification]
#[verifier::external_body]
pub struct ExBytes(bytes::Bytes);

#[verifier::external_type_specification]
#[verifier::external_body]
pub struct ExBytesMut(bytes::BytesMut);

/// The bytes that a `Bytes` handle refers to.
pub uninterp spec fn bytes_view(b: bytes::Bytes) -> Seq<u8>;

/// The bytes held by a `BytesMut` buffer.
pub uninterp spec fn bytes_mut_view(b: bytes::BytesMut) -> Seq<u8>;

pub open spec fn opt_bytes_view(b: Option<bytes::Bytes>) -> Option<Seq<u8>> {
    match b {
        Some(x) => Some(bytes_view(x)),
        None => None,
    }
}

/// `Bytes::new`: an empty handle.
#[verifier::external_body]
pub(crate) fn bytes_new() -> (r: bytes::Bytes)
    ensures
        bytes_view(r) == Seq::<u8>::empty(),
{
    bytes::Bytes::new()
}

/// `Bytes::copy_from_slice`: a handle to a copy of the given bytes.
#[verifier::external_body]
pub(crate) fn bytes_copy_from_slice(data: &[u8]) -> (r: bytes::Bytes)
    ensures
        bytes_view(r) == data@,
{
    bytes::Bytes::copy_from_slice(data)
}

/// `Bytes::from(Vec<u8>)`: a handle to the vector's bytes.
#[verifier::external_body]
pub(crate) fn bytes_from_vec(v: Vec<u8>) -> (r: bytes::Bytes)
    ensures
        bytes_view(r) == v@,
{
    bytes::Bytes::from(v)
}

/// `Bytes::from(String)`: a handle to the UTF-8 bytes of the string.
#[verifier::external_body]
pub(crate) fn bytes_from_string(s: String) -> (r: bytes::Bytes)
    ensures
        bytes_view(r) == encode_utf8(s@),
{
    bytes::Bytes::from(s)
}

/// `Deref` of `Bytes`: the slice of the bytes it refers to.
#[verifier::external_body]
pub(crate) fn bytes_as_slice(b: &bytes::Bytes) -> (r: &[u8])
    ensures
        r@ == bytes_view(*b),
{
    b.as_ref()
}

/// `BytesMut::with_capacity`: an empty buffer. Its allocation fails beyond `isize::MAX`.
#[verifier::external_body]
pub(crate) fn bytes_mut_with_capacity(capacity: usize) -> (r: bytes::BytesMut)
    requires
        capacity <= isize::MAX,
    ensures
        bytes_mut_view(r) == Seq::<u8>::empty(),
{
    bytes::BytesMut::with_capacity(capacity)
}

/// `BytesMut::extend_from_slice`: appends the bytes. It grows the buffer, and panics when the
/// new length would pass `isize::MAX`.
#[verifier::external_body]
pub(crate) fn bytes_mut_extend(buf: &mut bytes::BytesMut, data: &[u8])
    requires
        bytes_mut_view(*old(buf)).len() + data@.len() <= isize::MAX,
    ensures
        bytes_mut_view(*final(buf)) == bytes_mut_view(*old(buf)) + data@,
{
    buf.extend_from_slice(data)
}

/// `BytesMut::freeze`: a `Bytes` handle to the bytes of the buffer.
#[verifier::external_body]
pub(crate) fn bytes_mut_freeze(buf: bytes::BytesMut) -> (r: bytes::Bytes)
    ensures
        bytes_view(r) == bytes_mut_view(buf),
{
    buf.freeze()
}

} // verus!
