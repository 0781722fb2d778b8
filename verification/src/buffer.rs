//! The reusable datagram receive buffer. The framer resizes one buffer in
//! place to `max_length + 1` bytes before every read — the extra byte is the
//! truncation sentinel — and splits the received bytes off after it, so slow
//! consumers throttle the socket instead of growing memory.
use vstd::prelude::*;

use bytes::BytesMut;

verus! {

#[verifier::external_type_specification]
#[verifier::external_body]
pub struct ExBytesMut(BytesMut);

/// The bytes a buffer holds.
pub uninterp spec fn buf_contents(b: BytesMut) -> Seq<u8>;

/// Relies on `bytes::BytesMut::with_capacity`: a fresh buffer holds no
/// bytes, whatever it has allocated.
#[verifier::external_body]
pub fn buf_with_capacity(capacity: usize) -> (r: BytesMut)
    ensures
        buf_contents(r) == Seq::<u8>::empty(),
{
    BytesMut::with_capacity(capacity)
}

/// Relies on `bytes::BytesMut::len`: the number of bytes held.
#[verifier::external_body]
pub fn buf_len(b: &BytesMut) -> (r: usize)
    ensures
        r == buf_contents(*b).len(),
{
    b.len()
}

/// Relies on `bytes::BytesMut::resize`: the length becomes `new_len`; bytes
/// kept stay in place, bytes added hold `value`.
#[verifier::external_body]
pub fn buf_resize(b: &mut BytesMut, new_len: usize, value: u8)
    ensures
        buf_contents(*final(b)).len() == new_len,
        forall|i: int|
            0 <= i < new_len && i < buf_contents(*old(b)).len() ==> #[trigger] buf_contents(
                *final(b),
            )[i] == buf_contents(*old(b))[i],
        forall|i: int|
            buf_contents(*old(b)).len() <= i < new_len ==> #[trigger] buf_contents(*final(b))[i]
                == value,
{
    b.resize(new_len, value)
}

/// Relies on `bytes::BytesMut::split_to`: hands the first `at` bytes out and
/// keeps the rest. An `at` beyond the length would panic, so it is excluded.
#[verifier::external_body]
pub fn buf_split_to(b: &mut BytesMut, at: usize) -> (r: BytesMut)
    requires
        at <= buf_contents(*old(b)).len(),
    ensures
        buf_contents(r) == buf_contents(*old(b)).take(at as int),
        buf_contents(*final(b)) == buf_contents(*old(b)).skip(at as int),
{
    b.split_to(at)
}

/// Relies on `bytes::BytesMut`'s slice view: a plain copy of the bytes held.
#[verifier::external_body]
pub fn buf_to_vec(b: &BytesMut) -> (r: Vec<u8>)
    ensures
        r@ == buf_contents(*b),
{
    b.as_ref().to_vec()
}

/// Sizes the reusable receive buffer for the next read: one byte more than
/// the configured limit, so that a read filling the whole buffer reveals
/// that the datagram was clipped.
pub fn prepare_receive_buffer(buf: &mut BytesMut, max_length: usize)
    requires
        max_length < usize::MAX,
    ensures
        buf_contents(*final(buf)).len() == max_length + 1,
{
    buf_resize(buf, max_length + 1, 0);
}

/// Takes one received datagram out of the buffer: the `byte_size` bytes the
/// socket wrote, and whether the datagram was truncated — exactly when one
/// byte more than the limit was read.
pub fn take_datagram(buf: &mut BytesMut, byte_size: usize, max_length: usize) -> (r: (Vec<u8>, bool))
    requires
        max_length < usize::MAX,
        byte_size <= buf_contents(*old(buf)).len(),
    ensures
        r.0@ == buf_contents(*old(buf)).take(byte_size as int),
        r.1 == (byte_size == max_length + 1),
        buf_contents(*final(buf)) == buf_contents(*old(buf)).skip(byte_size as int),
{
    let payload = buf_split_to(buf, byte_size);
    let truncated = byte_size == max_length + 1;
    (buf_to_vec(&payload), truncated)
}

} // verus!
