//! Checksum validation of delivered frames: a frame opens with a 4-byte
//! big-endian CRC-32 of the rest, and only a matching remainder goes on
//! to decoding.

use vstd::prelude::*;

verus! {

/// The IEEE CRC-32 checksum of a byte sequence, a function of the bytes
/// alone; named here, computed by an outside crate.
pub uninterp spec fn crc32_of(data: Seq<u8>) -> u32;

/// Relies on crc32fast::hash: computes the IEEE CRC-32 of the bytes,
/// which depends on the bytes alone.
#[verifier::external_body]
fn crc32(data: &[u8]) -> (r: u32)
    ensures
        r == crc32_of(data@),
{
    crc32fast::hash(data)
}

/// The big-endian 32-bit value of the first four bytes.
pub open spec fn be32(s: Seq<u8>) -> u32
    recommends
        s.len() >= 4,
{
    ((s[0] as int) * 0x1000000 + (s[1] as int) * 0x10000 + (s[2] as int) * 0x100 + (
    s[3] as int)) as u32
}

/// Why a delivered frame was dropped before decoding.
#[derive(Clone, Copy, Debug, PartialEq, Eq, Structural)]
pub enum FrameError {
    /// The frame is too short to carry its own checksum field.
    FrameTooShort,
    /// The embedded checksum disagrees with the computed CRC-32.
    ChecksumMismatch,
}

/// A frame passes validation: it is long enough to carry the checksum
/// field, and that field's big-endian value is the CRC-32 of the rest.
pub open spec fn checksum_ok(msg: Seq<u8>) -> bool {
    msg.len() >= 4 && be32(msg) == crc32_of(msg.skip(4))
}

/// Splits the leading checksum field off a delivered frame and hands the
/// remainder on exactly when the field matches the remainder's CRC-32;
/// the two failure cases are told apart in the error.
pub fn validate_frame(msg: &[u8]) -> (r: Result<Vec<u8>, FrameError>)
    ensures
        r is Ok <==> checksum_ok(msg@),
        r is Ok ==> r.unwrap()@ == msg@.skip(4),
        msg@.len() < 4 ==> r == Err::<Vec<u8>, FrameError>(FrameError::FrameTooShort),
        msg@.len() >= 4 && be32(msg@) != crc32_of(msg@.skip(4)) ==> r == Err::<Vec<u8>, FrameError>(
            FrameError::ChecksumMismatch,
        ),
{
    if msg.len() < 4 {
        return Err(FrameError::FrameTooShort);
    }
    let expected = (msg[0] as u32) * 0x1000000 + (msg[1] as u32) * 0x10000 + (msg[2] as u32) * 0x100
        + (msg[3] as u32);
    let mut payload: Vec<u8> = Vec::new();
    let mut i: usize = 4;
    while i < msg.len()
        invariant
            4 <= i <= msg@.len(),
            payload@ == msg@.subrange(4, i as int),
        decreases msg@.len() - i,
    {
        payload.push(msg[i]);
        i = i + 1;
        proof {
            assert(payload@ =~= msg@.subrange(4, i as int));
        }
    }
    proof {
        assert(msg@.subrange(4, msg@.len() as int) =~= msg@.skip(4));
    }
    let actual = crc32(payload.as_slice());
    if expected != actual {
        return Err(FrameError::ChecksumMismatch);
    }
    Ok(payload)
}

/// Law: a frame assembled as the four big-endian bytes of a payload's
/// CRC-32 followed by that payload always passes validation.
pub proof fn lemma_checksum_frame_accepted(b0: u8, b1: u8, b2: u8, b3: u8, p: Seq<u8>)
    ensures
        (b0 as int) * 0x1000000 + (b1 as int) * 0x10000 + (b2 as int) * 0x100 + (b3 as int)
            == crc32_of(p) ==> checksum_ok(seq![b0, b1, b2, b3] + p),
{
    let msg = seq![b0, b1, b2, b3] + p;
    assert(msg.skip(4) =~= p);
    assert(msg[0] == b0 && msg[1] == b1 && msg[2] == b2 && msg[3] == b3);
}

} // verus!
