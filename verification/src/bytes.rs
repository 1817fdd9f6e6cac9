//! Taking byte strings apart: big-endian integers and splitting.

use crate::error::{Error, Fault};
use vstd::prelude::*;

verus! {

/// The unsigned integer that bytes stand for, most significant byte first.
pub open spec fn be_uint(bytes: Seq<u8>) -> nat
    decreases bytes.len(),
{
    if bytes.len() == 0 {
        0
    } else {
        be_uint(bytes.drop_last()) * 256 + bytes.last() as nat
    }
}

/// The signed integer that four bytes stand for in two's complement, most
/// significant byte first.
pub open spec fn be_i32(bytes: Seq<u8>) -> int {
    if be_uint(bytes) < 0x8000_0000 {
        be_uint(bytes) as int
    } else {
        be_uint(bytes) - 0x1_0000_0000
    }
}

/// The signed integer that eight bytes stand for in two's complement, most
/// significant byte first.
pub open spec fn be_i64(bytes: Seq<u8>) -> int {
    if be_uint(bytes) < 0x8000_0000_0000_0000 {
        be_uint(bytes) as int
    } else {
        be_uint(bytes) - 0x1_0000_0000_0000_0000
    }
}

/// The unsigned integer that four bytes stand for, written out.
pub proof fn lemma_be_uint_4(b: Seq<u8>)
    requires
        b.len() == 4,
    ensures
        be_uint(b) == b[0] * 0x100_0000 + b[1] * 0x1_0000 + b[2] * 0x100 + b[3],
{
    reveal_with_fuel(be_uint, 5);
}

/// The unsigned integer that eight bytes stand for, from its two halves.
pub proof fn lemma_be_uint_8(b: Seq<u8>)
    requires
        b.len() == 8,
    ensures
        be_uint(b) == be_uint(b.take(4)) * 0x1_0000_0000 + be_uint(b.skip(4)),
{
    let high = b.take(4);
    let low = b.skip(4);
    lemma_be_uint_4(high);
    lemma_be_uint_4(low);
    assert(b.drop_last().drop_last().drop_last().drop_last() =~= high);
    reveal_with_fuel(be_uint, 5);
}

/// Interprets the given slice as an unsigned 32-bit big-endian integer and
/// returns it.
pub fn from_be_bytes_u32(bytes: &[u8]) -> (n: u32)
    requires
        bytes@.len() == 4,
    ensures
        n == be_uint(bytes@),
{
    proof {
        lemma_be_uint_4(bytes@);
    }
    bytes[0] as u32 * 0x100_0000 + bytes[1] as u32 * 0x1_0000 + bytes[2] as u32 * 0x100
        + bytes[3] as u32
}

/// Interprets the given slice as an unsigned 32-bit big-endian integer,
/// attempts to convert it to a `usize` and returns it.
///
/// This errors if the integer cannot fit in a `usize`.
pub fn from_be_bytes_u32_to_usize(bytes: &[u8]) -> (r: Result<usize, Error>)
    requires
        bytes@.len() == 4,
    ensures
        match r {
            Ok(n) => be_uint(bytes@) <= usize::MAX && n == be_uint(bytes@),
            Err(e) => be_uint(bytes@) > usize::MAX && e@ == (Fault::Integer {
                n: be_uint(bytes@),
            }).text(),
        },
{
    let n: u32 = from_be_bytes_u32(bytes);
    match usize::try_from(n) {
        Ok(n) => Ok(n),
        Err(_) => Err(Error::integer(n)),
    }
}

/// Interprets the given slice as a signed 32-bit big-endian integer and
/// returns it.
pub fn from_be_bytes_i32(bytes: &[u8]) -> (n: i32)
    requires
        bytes@.len() == 4,
    ensures
        n == be_i32(bytes@),
{
    let n: u32 = from_be_bytes_u32(bytes);
    if n < 0x8000_0000 {
        n as i32
    } else {
        (n as i64 - 0x1_0000_0000) as i32
    }
}

/// Interprets the given slice as a signed 64-bit big-endian integer and
/// returns it.
pub fn from_be_bytes_i64(bytes: &[u8]) -> (n: i64)
    requires
        bytes@.len() == 8,
    ensures
        n == be_i64(bytes@),
{
    let (high, low) = bytes.split_at(4);
    proof {
        lemma_be_uint_8(bytes@);
        assert(high@ =~= bytes@.take(4));
        assert(low@ =~= bytes@.skip(4));
    }
    from_be_bytes_i32(high) as i64 * 0x1_0000_0000 + from_be_bytes_u32(low) as i64
}

/// Splits the given slice of bytes at the index given.
///
/// If the index is out of range (greater than `bytes.len()`) then an error is
/// returned. The error message will hold the `what` string given, which is
/// meant to describe the thing being split.
pub fn try_split_at<'b>(what: &'static str, bytes: &'b [u8], at: usize) -> (r: Result<
    (&'b [u8], &'b [u8]),
    Error,
>)
    ensures
        match r {
            Ok((head, tail)) => at <= bytes@.len() && head@ == bytes@.take(at as int) && tail@
                == bytes@.skip(at as int),
            Err(e) => at > bytes@.len() && e@ == (Fault::TooFewBytes {
                what: what@,
                at: at as nat,
                len: bytes@.len(),
            }).text(),
        },
{
    if at > bytes.len() {
        Err(Error::too_few_bytes(what, at, bytes.len()))
    } else {
        Ok(bytes.split_at(at))
    }
}

} // verus!
