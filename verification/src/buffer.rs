//! The byte buffers of the `bytes` crate: `BytesMut`, which is filled and taken apart, and
//! `Bytes`, which is handed out.
use bytes::{Bytes, BytesMut};
use vstd::prelude::*;

verus! {

/// `bytes::Bytes`; `frozen` says what it holds.
#[verifier::external_type_specification]
#[verifier::external_body]
pub struct ExBytes(bytes::Bytes);

/// `bytes::BytesMut`; `held` says what it holds.
#[verifier::external_type_specification]
#[verifier::external_body]
pub struct ExBytesMut(bytes::BytesMut);

/// The bytes that a `Bytes` holds.
pub uninterp spec fn frozen(bytes: Bytes) -> Seq<u8>;

/// The bytes that a `BytesMut` holds.
pub uninterp spec fn held(buf: BytesMut) -> Seq<u8>;

/// `BytesMut::new` makes a buffer that holds nothing.
pub assume_specification[ bytes::BytesMut::new ]() -> (buf: BytesMut)
    ensures
        held(buf) == Seq::<u8>::empty(),
;

/// `BytesMut::len` is the number of bytes held.
pub assume_specification[ bytes::BytesMut::len ](buf: &BytesMut) -> (len: usize)
    ensures
        len == held(*buf).len(),
;

/// `BytesMut::is_empty` says whether nothing is held.
pub assume_specification[ bytes::BytesMut::is_empty ](buf: &BytesMut) -> (empty: bool)
    ensures
        empty == (held(*buf).len() == 0),
;

/// `BytesMut::split_to` takes the first `at` bytes off the buffer and returns them.
pub assume_specification[ bytes::BytesMut::split_to ](buf: &mut BytesMut, at: usize) -> (head: BytesMut)
    requires
        at <= held(*old(buf)).len(),
    ensures
        held(head) == held(*old(buf)).take(at as int),
        held(*final(buf)) == held(*old(buf)).skip(at as int),
;

/// `BytesMut::split` takes everything off the buffer and returns it.
pub assume_specification[ bytes::BytesMut::split ](buf: &mut BytesMut) -> (all: BytesMut)
    ensures
        held(all) == held(*old(buf)),
        held(*final(buf)) == Seq::<u8>::empty(),
;

/// `BytesMut::freeze` keeps the bytes.
pub assume_specification[ bytes::BytesMut::freeze ](buf: BytesMut) -> (bytes: Bytes)
    ensures
        frozen(bytes) == held(buf),
;

/// `BytesMut::extend_from_slice` appends the slice. Where the buffer has to grow it asks for no
/// more than four times what it will hold, and an allocation of more than `isize::MAX` bytes
/// panics.
pub assume_specification[ bytes::BytesMut::extend_from_slice ](buf: &mut BytesMut, extend: &[u8])
    requires
        held(*old(buf)).len() + extend@.len() <= usize::MAX / 8,
    ensures
        held(*final(buf)) == held(*old(buf)) + extend@,
;

/// The slice that a `BytesMut` dereferences to holds its bytes.
pub assume_specification[ <bytes::BytesMut as core::ops::Deref>::deref ](buf: &BytesMut) -> (bytes: &[u8])
    ensures
        bytes@ == held(*buf),
;

/// The slice that a `Bytes` dereferences to holds its bytes.
pub assume_specification[ <bytes::Bytes as core::ops::Deref>::deref ](buf: &Bytes) -> (bytes: &[u8])
    ensures
        bytes@ == frozen(*buf),
;

} // verus!
