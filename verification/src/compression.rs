//! The codec boundary: validates buffer sizes against the archive format's
//! 32-bit length fields, drives the compression capability, transfers
//! ownership of the buffers it allocates (releasing each exactly once), and
//! maps its status codes into [`Error`].
//!
//! The archive format stores an entry's length in a 32-bit field whose top bit
//! flags a packed entry, so a compressed payload must fit in a signed 32-bit
//! quantity; every other length crossing the boundary must fit in an unsigned
//! one. Both limits are enforced here, never assumed.

use crate::capability::Capability;
use crate::rle::{lemma_rle_encode_len, lemma_rle_round_trip, rle_decode, rle_encode};
use vstd::prelude::*;

verus! {

/// Every length that crosses the boundary must fit in an unsigned 32-bit
/// field: lengths of `LEN_LIMIT` or more are rejected before any capability
/// call.
pub const LEN_LIMIT: u64 = 0x1_0000_0000;

/// A compressed payload must fit in a signed 32-bit field, because the
/// archive format reserves the sign bit of the stored length as the
/// "is packed" flag.
pub const PACKED_MAX: u64 = 0x7fff_ffff;

/// A failure of the codec boundary. `ReturnCode` preserves a non-zero
/// decompression status of the capability for diagnostics, uninterpreted.
#[derive(Debug, PartialEq, Eq)]
pub enum Error {
    InputTooLarge,
    OutputTooLarge,
    ReturnCode(i32),
}

/// Decompresses `src_data` into the prefix of `dest_data`, whose length the
/// caller has set to the capacity it can accept, through the capability
/// `cap`. Returns the number of bytes actually produced, which may fall short
/// of the capacity. Inputs or outputs whose length does not fit in 32 bits
/// are rejected without touching the capability.
pub fn unpack_to_buf_with(cap: &mut Capability, src_data: &[u8], dest_data: &mut Vec<u8>) -> (r:
    Result<usize, Error>)
    requires
        old(cap).wf(),
        old(cap).unpack_calls < u64::MAX,
    ensures
        final(cap).wf(),
        final(cap).allocs == old(cap).allocs,
        final(cap).releases == old(cap).releases,
        final(dest_data)@.len() == old(dest_data)@.len(),
        src_data@.len() >= LEN_LIMIT ==> r == Err::<usize, Error>(Error::InputTooLarge) && *final(cap) == *old(cap) && *final(dest_data) == *old(dest_data),
        src_data@.len() < LEN_LIMIT && old(dest_data)@.len() >= LEN_LIMIT ==> r == Err::<
            usize,
            Error,
        >(Error::OutputTooLarge) && *final(cap) == *old(cap) && *final(dest_data) == *old(dest_data),
        src_data@.len() < LEN_LIMIT && old(dest_data)@.len() < LEN_LIMIT ==> {
            &&& final(cap).unpack_calls == old(cap).unpack_calls + 1
            &&& (r is Ok <==> (rle_decode(src_data@) matches Some(d) && d.len() <= old(dest_data)@.len()))
            &&& (r matches Ok(n) ==> (rle_decode(src_data@) matches Some(d) && n == d.len() && final(dest_data)@ == d + old(dest_data)@.skip(d.len() as int)))
            &&& (r matches Err(e) ==> (e matches Error::ReturnCode(c) && c != 0))
            &&& ((rle_decode(src_data@) matches Some(d) && d.len() > old(dest_data)@.len()) ==> r
                == Err::<usize, Error>(Error::ReturnCode(2)))
        },
{
    if src_data.len() as u64 >= LEN_LIMIT {
        return Err(Error::InputTooLarge);
    }
    if dest_data.len() as u64 >= LEN_LIMIT {
        return Err(Error::OutputTooLarge);
    }
    let (return_code, dest_size) = cap.unpack(src_data, dest_data);
    if return_code == 0 {
        Ok(dest_size)
    } else {
        Err(Error::ReturnCode(return_code))
    }
}

/// [`unpack_to_buf_with`] on a capability of the call's own: the form the
/// archive layer uses when it has no bookkeeping to thread through.
pub fn unpack_to_buf(src_data: &[u8], dest_data: &mut Vec<u8>) -> (r: Result<usize, Error>)
    ensures
        final(dest_data)@.len() == old(dest_data)@.len(),
        src_data@.len() >= LEN_LIMIT ==> r == Err::<usize, Error>(Error::InputTooLarge) && *final(dest_data) == *old(dest_data),
        src_data@.len() < LEN_LIMIT && old(dest_data)@.len() >= LEN_LIMIT ==> r == Err::<
            usize,
            Error,
        >(Error::OutputTooLarge) && *final(dest_data) == *old(dest_data),
        src_data@.len() < LEN_LIMIT && old(dest_data)@.len() < LEN_LIMIT ==> {
            &&& (r is Ok <==> (rle_decode(src_data@) matches Some(d) && d.len() <= old(dest_data)@.len()))
            &&& (r matches Ok(n) ==> (rle_decode(src_data@) matches Some(d) && n == d.len() && final(dest_data)@ == d + old(dest_data)@.skip(d.len() as int)))
            &&& (r matches Err(e) ==> (e matches Error::ReturnCode(c) && c != 0))
            &&& ((rle_decode(src_data@) matches Some(d) && d.len() > old(dest_data)@.len()) ==> r
                == Err::<usize, Error>(Error::ReturnCode(2)))
        },
{
    let mut cap = Capability::new();
    unpack_to_buf_with(&mut cap, src_data, dest_data)
}

/// Decompresses `src_data` into an owned buffer, given the caller's
/// best-known decompressed length `size`. The buffer is truncated to the
/// number of bytes the capability actually produced, which may fall short of
/// `size`; it is never extended past it. Errors propagate unchanged from
/// [`unpack_to_buf`].
pub fn unpack_sized(src_data: &[u8], size: usize) -> (r: Result<Vec<u8>, Error>)
    ensures
        src_data@.len() >= LEN_LIMIT ==> r == Err::<Vec<u8>, Error>(Error::InputTooLarge),
        src_data@.len() < LEN_LIMIT && size >= LEN_LIMIT ==> r == Err::<Vec<u8>, Error>(
            Error::OutputTooLarge,
        ),
        src_data@.len() < LEN_LIMIT && size < LEN_LIMIT ==> {
            &&& (r is Ok <==> (rle_decode(src_data@) matches Some(d) && d.len() <= size))
            &&& (r matches Ok(v) ==> (rle_decode(src_data@) matches Some(d) && v@ == d))
            &&& (r matches Err(e) ==> (e matches Error::ReturnCode(c) && c != 0))
        },
{
    if src_data.len() as u64 >= LEN_LIMIT {
        return Err(Error::InputTooLarge);
    }
    if size as u64 >= LEN_LIMIT {
        return Err(Error::OutputTooLarge);
    }
    let mut dest_data: Vec<u8> = Vec::new();
    let mut i: usize = 0;
    while i < size
        invariant
            dest_data@.len() == i,
            i <= size,
        decreases size - i,
    {
        dest_data.push(0u8);
        i = i + 1;
    }
    let dest_size = match unpack_to_buf(src_data, &mut dest_data) {
        Ok(n) => n,
        Err(e) => {
            return Err(e);
        },
    };
    proof {
        if rle_decode(src_data@) is Some {
            let d = rle_decode(src_data@).unwrap();
            assert((d + dest_data@.skip(d.len() as int)).subrange(0, d.len() as int) =~= d);
        }
    }
    dest_data.truncate(dest_size);
    Ok(dest_data)
}

/// Compresses `src_data` through the capability `cap` into an owned buffer.
/// The capability allocates the compressed bytes itself; this call copies
/// them out and releases the capability's buffer exactly once on every path
/// past the capability call, also when the compressed size is rejected. An
/// input whose length does not fit in 32 bits is rejected without touching
/// the capability; a compressed result that does not fit the archive's signed
/// 32-bit length field is released and rejected, never handed to the caller.
pub fn pack_with(cap: &mut Capability, src_data: &[u8]) -> (r: Result<Vec<u8>, Error>)
    requires
        old(cap).wf(),
        old(cap).allocs < u64::MAX,
    ensures
        final(cap).wf(),
        final(cap).unpack_calls == old(cap).unpack_calls,
        final(cap).allocs - final(cap).releases == old(cap).allocs - old(cap).releases,
        src_data@.len() >= LEN_LIMIT ==> r == Err::<Vec<u8>, Error>(Error::InputTooLarge) && *final(cap) == *old(cap),
        src_data@.len() < LEN_LIMIT ==> {
            &&& final(cap).allocs == old(cap).allocs + 1
            &&& final(cap).releases == old(cap).releases + 1
            &&& (rle_encode(src_data@).len() > PACKED_MAX ==> r == Err::<Vec<u8>, Error>(
                Error::OutputTooLarge,
            ))
            &&& (rle_encode(src_data@).len() <= PACKED_MAX ==> (r matches Ok(v) && v@ == rle_encode(
                src_data@,
            )))
        },
{
    if src_data.len() as u64 >= LEN_LIMIT {
        return Err(Error::InputTooLarge);
    }
    let buf = cap.pack(src_data);
    if buf.len() as u64 > PACKED_MAX {
        cap.release(buf);
        return Err(Error::OutputTooLarge);
    }
    let result_vec = buf.copy_out();
    cap.release(buf);
    Ok(result_vec)
}

/// [`pack_with`] on a capability of the call's own: the form the archive
/// layer uses when it has no bookkeeping to thread through.
pub fn pack(src_data: &[u8]) -> (r: Result<Vec<u8>, Error>)
    ensures
        src_data@.len() >= LEN_LIMIT ==> r == Err::<Vec<u8>, Error>(Error::InputTooLarge),
        src_data@.len() < LEN_LIMIT ==> {
            &&& (rle_encode(src_data@).len() > PACKED_MAX ==> r == Err::<Vec<u8>, Error>(
                Error::OutputTooLarge,
            ))
            &&& (rle_encode(src_data@).len() <= PACKED_MAX ==> (r matches Ok(v) && v@ == rle_encode(
                src_data@,
            )))
        },
{
    let mut cap = Capability::new();
    pack_with(&mut cap, src_data)
}

/// Round trip: a payload below the packed-size limit whose compressed form
/// `pack` accepts is recovered exactly by `unpack_sized` at the payload's own
/// length. Over the boundary's contracts: packing a payload `d` yields
/// `rle_encode(d)` whenever that fits the packed-size field — which it always
/// does below half the limit, by the expansion bound — and unpacking those
/// bytes at capacity `d.len()` decodes them back to precisely `d`.
pub proof fn lemma_round_trip(d: Seq<u8>)
    requires
        d.len() < 0x8000_0000,
    ensures
        rle_decode(rle_encode(d)) == Some(d),
        rle_encode(d).len() <= 2 * d.len(),
        2 * d.len() <= PACKED_MAX ==> rle_encode(d).len() <= PACKED_MAX,
{
    lemma_rle_round_trip(d);
    lemma_rle_encode_len(d);
}

} // verus!
