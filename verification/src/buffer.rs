//! The bounded byte buffer that carries payloads and encoded messages.
//!
//! The buffer is `heapless::Vec<u8, 1024>`: a vector with inline storage that
//! never grows past its capacity. Its contents are modelled by
//! [`buffer_bytes`]; the functions below are the only places where the
//! heapless crate is called, and their contracts are taken on trust from its
//! source.

use vstd::prelude::*;
use crate::constants::MAX_PAYLOAD_SIZE;

verus! {

/// Makes `heapless::Vec` known to the verifier, as a type that it cannot
/// look into.
#[verifier::external_type_specification]
#[verifier::external_body]
#[verifier::reject_recursive_types(T)]
pub struct ExBoundedVec<T, const N: usize>(heapless::Vec<T, N>);

/// A byte buffer that holds at most [`MAX_PAYLOAD_SIZE`] bytes.
pub type Buffer = heapless::Vec<u8, MAX_PAYLOAD_SIZE>;

/// The bytes that a buffer holds, in order.
pub uninterp spec fn buffer_bytes(buf: heapless::Vec<u8, 1024>) -> Seq<u8>;

/// `heapless::Vec::new`: a buffer that holds nothing.
#[verifier::external_body]
pub(crate) fn buffer_new() -> (buf: Buffer)
    ensures
        buffer_bytes(buf) == Seq::<u8>::empty(),
{
    heapless::Vec::new()
}

/// `heapless::Vec::push`: appends `byte` if fewer than 1024 bytes are held and
/// says so; a full buffer stays as it is.
#[verifier::external_body]
pub(crate) fn buffer_push(buf: &mut Buffer, byte: u8) -> (pushed: bool)
    ensures
        pushed == (buffer_bytes(*old(buf)).len() < 1024),
        pushed ==> buffer_bytes(*final(buf)) == buffer_bytes(*old(buf)).push(byte),
        !pushed ==> buffer_bytes(*final(buf)) == buffer_bytes(*old(buf)),
{
    buf.push(byte).is_ok()
}

/// `heapless::Vec::extend_from_slice`: appends all of `bytes` if the result
/// holds at most 1024 bytes and says so; otherwise the buffer stays as it is.
#[verifier::external_body]
pub(crate) fn buffer_extend(buf: &mut Buffer, bytes: &[u8]) -> (extended: bool)
    ensures
        extended == (buffer_bytes(*old(buf)).len() + bytes@.len() <= 1024),
        extended ==> buffer_bytes(*final(buf)) == buffer_bytes(*old(buf)) + bytes@,
        !extended ==> buffer_bytes(*final(buf)) == buffer_bytes(*old(buf)),
{
    buf.extend_from_slice(bytes).is_ok()
}

/// `heapless::Vec::as_slice`: the bytes held, of which there are never more
/// than the capacity.
#[verifier::external_body]
pub(crate) fn buffer_slice(buf: &Buffer) -> (bytes: &[u8])
    ensures
        bytes@ == buffer_bytes(*buf),
        bytes@.len() <= 1024,
{
    buf.as_slice()
}

/// `Clone::clone` of `heapless::Vec`: a second buffer with the same bytes.
#[verifier::external_body]
pub(crate) fn buffer_clone(buf: &Buffer) -> (copy: Buffer)
    ensures
        buffer_bytes(copy) == buffer_bytes(*buf),
{
    buf.clone()
}

} // verus!
