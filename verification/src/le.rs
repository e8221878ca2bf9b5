//! Integers as runs of bytes, lowest byte first.
//!
//! The conversions themselves are made by the `byteorder` crate; what
//! this module states of them is taken on trust from that crate.

use byteorder::{ByteOrder, LittleEndian};
use vstd::prelude::*;

verus! {

/// The unsigned 16-bit number that the first two bytes hold.
pub open spec fn le_u16(bytes: Seq<u8>) -> int {
    bytes[0] + 0x100 * bytes[1]
}

/// The unsigned 32-bit number that the first four bytes hold.
pub open spec fn le_u32(bytes: Seq<u8>) -> int {
    bytes[0] + 0x100 * bytes[1] + 0x1_0000 * bytes[2] + 0x100_0000 * bytes[3]
}

/// The signed 32-bit number that the first four bytes hold in two's
/// complement.
pub open spec fn le_i32(bytes: Seq<u8>) -> int {
    if le_u32(bytes) >= 0x8000_0000 {
        le_u32(bytes) - 0x1_0000_0000
    } else {
        le_u32(bytes)
    }
}

/// The two bytes that hold `n`.
pub open spec fn u16_bytes(n: u16) -> Seq<u8> {
    seq![(n % 0x100) as u8, (n / 0x100) as u8]
}

/// The four bytes that hold `n`.
pub open spec fn u32_bytes(n: u32) -> Seq<u8> {
    seq![
        (n % 0x100) as u8,
        (n / 0x100 % 0x100) as u8,
        (n / 0x1_0000 % 0x100) as u8,
        (n / 0x100_0000) as u8,
    ]
}

/// `byteorder::LittleEndian::read_u16`. It reads the first two bytes of
/// `buf` as a number with the lowest byte first, and panics on a shorter
/// `buf`.
#[verifier::external_body]
pub(crate) fn read_u16(buf: &[u8]) -> (r: u16)
    requires
        buf@.len() >= 2,
    ensures
        r == le_u16(buf@),
{
    LittleEndian::read_u16(buf)
}

/// `byteorder::LittleEndian::read_i32`. It reads the first four bytes of
/// `buf` as a number in two's complement with the lowest byte first, and
/// panics on a shorter `buf`.
#[verifier::external_body]
pub(crate) fn read_i32(buf: &[u8]) -> (r: i32)
    requires
        buf@.len() >= 4,
    ensures
        r == le_i32(buf@),
{
    LittleEndian::read_i32(buf)
}

/// `byteorder::LittleEndian::write_u16`. It writes `n` over the first
/// two bytes of `buf`, lowest byte first, leaves the rest of `buf` as it
/// was, and panics on a shorter `buf`.
#[verifier::external_body]
pub(crate) fn write_u16(buf: &mut [u8], n: u16)
    requires
        old(buf)@.len() >= 2,
    ensures
        final(buf)@ == u16_bytes(n) + old(buf)@.subrange(2, old(buf)@.len() as int),
{
    LittleEndian::write_u16(buf, n)
}

/// `byteorder::LittleEndian::write_u32`. It writes `n` over the first
/// four bytes of `buf`, lowest byte first, leaves the rest of `buf` as it
/// was, and panics on a shorter `buf`.
#[verifier::external_body]
pub(crate) fn write_u32(buf: &mut [u8], n: u32)
    requires
        old(buf)@.len() >= 4,
    ensures
        final(buf)@ == u32_bytes(n) + old(buf)@.subrange(4, old(buf)@.len() as int),
{
    LittleEndian::write_u32(buf, n)
}

/// Appends the two bytes of `n` to `out`.
pub fn push_u16(out: &mut Vec<u8>, n: u16)
    ensures
        final(out)@ == old(out)@ + u16_bytes(n),
{
    let mut word = [0u8;2];
    write_u16(&mut word, n);
    out.push(word[0]);
    out.push(word[1]);
    assert(out@ =~= old(out)@ + u16_bytes(n));
}

/// Appends the four bytes of `n` to `out`.
pub fn push_u32(out: &mut Vec<u8>, n: u32)
    ensures
        final(out)@ == old(out)@ + u32_bytes(n),
{
    let mut word = [0u8;4];
    write_u32(&mut word, n);
    out.push(word[0]);
    out.push(word[1]);
    out.push(word[2]);
    out.push(word[3]);
    assert(out@ =~= old(out)@ + u32_bytes(n));
}

/// The bytes of a number hold that number.
pub proof fn lemma_u16_round_trip(n: u16)
    ensures
        le_u16(u16_bytes(n)) == n,
{
}

/// The bytes of a number hold that number.
pub proof fn lemma_u32_round_trip(n: u32)
    ensures
        le_u32(u32_bytes(n)) == n,
{
}

} // verus!
