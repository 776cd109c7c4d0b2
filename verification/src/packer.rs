//! The primitives on which every record body is built: appending a 16-bit
//! integer or raw bytes to a message, and reading a 16-bit integer at an
//! offset. Integers are big-endian on the wire.

use crate::errors::Error;
use vstd::prelude::*;

verus! {

/// The number of bytes that a 16-bit integer takes on the wire.
pub const UINT16LEN: usize = 2;

/// The two bytes that stand for `v` on the wire, high byte first.
pub open spec fn be16_bytes(v: u16) -> Seq<u8> {
    seq![(v / 256) as u8, (v % 256) as u8]
}

/// The integer that the bytes `hi`, `lo` stand for, `hi` being the first on
/// the wire.
pub open spec fn be16_value(hi: u8, lo: u8) -> u16 {
    (hi * 256 + lo) as u16
}

/// Reading back what was written gives the integer that was written.
pub proof fn lemma_be16_round_trip(v: u16)
    ensures
        be16_bytes(v).len() == 2,
        be16_value(be16_bytes(v)[0], be16_bytes(v)[1]) == v,
{
}

/// Writing what was read gives the two bytes that were read.
pub proof fn lemma_be16_bytes_of_value(hi: u8, lo: u8)
    ensures
        be16_bytes(be16_value(hi, lo)) == seq![hi, lo],
{
}

/// Appends `field` to `msg`, high byte first.
pub fn pack_uint16(msg: Vec<u8>, field: u16) -> (out: Vec<u8>)
    ensures
        out@ == msg@ + be16_bytes(field),
{
    let mut out = msg;
    let hi: u8 = (field / 256) as u8;
    let lo: u8 = (field % 256) as u8;
    out.push(hi);
    out.push(lo);
    out
}

/// Appends the bytes of `field` to `msg`, in their order.
pub fn pack_bytes(msg: Vec<u8>, field: &[u8]) -> (out: Vec<u8>)
    ensures
        out@ == msg@ + field@,
{
    let mut out = msg;
    out.extend_from_slice(field);
    out
}

/// Reads the 16-bit integer whose first byte is at `off`, and gives it with
/// the offset of the byte after it. Fails where the message does not hold
/// two bytes from `off` on.
pub fn unpack_uint16(msg: &[u8], off: usize) -> (res: Result<(u16, usize), Error>)
    ensures
        match res {
            Ok((field, next)) => {
                &&& off + UINT16LEN <= msg@.len()
                &&& field == be16_value(msg@[off as int], msg@[off + 1])
                &&& next == off + UINT16LEN
            },
            Err(e) => off + UINT16LEN > msg@.len() && e == Error::ErrCalcLen,
        },
{
    if msg.len() < UINT16LEN || off > msg.len() - UINT16LEN {
        return Err(Error::ErrCalcLen);
    }
    let hi: u16 = msg[off] as u16;
    let lo: u16 = msg[off + 1] as u16;
    Ok((hi * 256 + lo, off + UINT16LEN))
}

} // verus!
