//! Reading the primitive fields of the format from a byte slice: single bytes,
//! big-endian integers, fixed-size arrays and length-prefixed blocks.
//!
//! Each field has a spec function that says, for a sequence of bytes and a
//! position in it, what the field holds and where it ends; the executable
//! reader is proved to agree with it.

use crate::error::{agrees, Error, Fault};
use byteorder::{BigEndian, ByteOrder};
use vstd::prelude::*;

verus! {

/// The unsigned big-endian reading of the first two bytes of `s`.
pub open spec fn be_u16(s: Seq<u8>) -> u16
    recommends
        s.len() >= 2,
{
    (s[0] as int * 0x100 + s[1] as int) as u16
}

/// The two's complement big-endian reading of the first four bytes of `s`.
pub open spec fn be_i32(s: Seq<u8>) -> i32
    recommends
        s.len() >= 4,
{
    let unsigned = s[0] as int * 0x100_0000 + s[1] as int * 0x1_0000 + s[2] as int * 0x100 + s[3] as int;
    if unsigned >= 0x8000_0000 {
        (unsigned - 0x1_0000_0000) as i32
    } else {
        unsigned as i32
    }
}

/// Whether `n` bytes can be read from `s` at `pos`.
pub open spec fn fits(s: Seq<u8>, pos: int, n: int) -> bool {
    0 <= pos && 0 <= n && pos + n <= s.len()
}

/// One byte at `pos`.
pub open spec fn byte_at(s: Seq<u8>, pos: int) -> Result<(u8, int), Fault> {
    if fits(s, pos, 1) {
        Ok((s[pos], pos + 1))
    } else {
        Err(Fault::UnexpectedEof)
    }
}

/// An unsigned 16-bit big-endian integer at `pos`.
pub open spec fn u16_at(s: Seq<u8>, pos: int) -> Result<(u16, int), Fault> {
    if fits(s, pos, 2) {
        Ok((be_u16(s.subrange(pos, pos + 2)), pos + 2))
    } else {
        Err(Fault::UnexpectedEof)
    }
}

/// A signed 32-bit big-endian integer at `pos`.
pub open spec fn i32_at(s: Seq<u8>, pos: int) -> Result<(i32, int), Fault> {
    if fits(s, pos, 4) {
        Ok((be_i32(s.subrange(pos, pos + 4)), pos + 4))
    } else {
        Err(Fault::UnexpectedEof)
    }
}

/// Exactly `n` bytes at `pos`.
pub open spec fn bytes_at(s: Seq<u8>, pos: int, n: int) -> Result<(Seq<u8>, int), Fault> {
    if fits(s, pos, n) {
        Ok((s.subrange(pos, pos + n), pos + n))
    } else {
        Err(Fault::UnexpectedEof)
    }
}

/// A length or count at `pos`: a signed 32-bit integer that must not be
/// negative.
pub open spec fn length_at(s: Seq<u8>, pos: int) -> Result<(usize, int), Fault> {
    match i32_at(s, pos) {
        Ok((value, next)) => if value < 0 {
            Err(Fault::InvalidLength(value))
        } else {
            Ok((value as usize, next))
        },
        Err(fault) => Err(fault),
    }
}

/// A length-prefixed block at `pos`: a length, then that many bytes.
pub open spec fn block_at(s: Seq<u8>, pos: int) -> Result<(Seq<u8>, int), Fault> {
    match length_at(s, pos) {
        Ok((len, next)) => bytes_at(s, next, len as int),
        Err(fault) => Err(fault),
    }
}

/// `byteorder::BigEndian::read_u16`: the first two bytes of `buf`, the first
/// being the more significant. It panics on a shorter slice, which the
/// precondition excludes.
#[verifier::external_body]
fn be_read_u16(buf: &[u8]) -> (value: u16)
    requires
        buf@.len() >= 2,
    ensures
        value == be_u16(buf@),
{
    BigEndian::read_u16(buf)
}

/// `byteorder::BigEndian::read_i32`: the first four bytes of `buf` as a two's
/// complement number, the first byte being the most significant. It panics on
/// a shorter slice, which the precondition excludes.
#[verifier::external_body]
fn be_read_i32(buf: &[u8]) -> (value: i32)
    requires
        buf@.len() >= 4,
    ensures
        value == be_i32(buf@),
{
    BigEndian::read_i32(buf)
}

/// The part of `buf` from `pos` that is `n` bytes long, if `buf` holds it.
pub fn read_exact<'a>(buf: &'a [u8], pos: usize, n: usize) -> (r: Result<(&'a [u8], usize), Error>)
    ensures
        match r {
            Ok((bytes, next)) => bytes_at(buf@, pos as int, n as int) == Ok::<(Seq<u8>, int), Fault>(
                (bytes@, next as int),
            ),
            Err(error) => bytes_at(buf@, pos as int, n as int) == Err::<(Seq<u8>, int), Fault>(
                error@,
            ),
        },
{
    if pos <= buf.len() && n <= buf.len() - pos {
        let end: usize = pos + n;
        Ok((&buf[pos..end], end))
    } else {
        Err(Error::UnexpectedEof)
    }
}

pub fn read_u8(buf: &[u8], pos: usize) -> (r: Result<(u8, usize), Error>)
    ensures
        agrees(r, byte_at(buf@, pos as int)),
{
    if pos < buf.len() {
        Ok((buf[pos], pos + 1))
    } else {
        Err(Error::UnexpectedEof)
    }
}

pub fn read_u16(buf: &[u8], pos: usize) -> (r: Result<(u16, usize), Error>)
    ensures
        agrees(r, u16_at(buf@, pos as int)),
{
    match read_exact(buf, pos, 2) {
        Ok((bytes, next)) => Ok((be_read_u16(bytes), next)),
        Err(error) => Err(error),
    }
}

pub fn read_i32(buf: &[u8], pos: usize) -> (r: Result<(i32, usize), Error>)
    ensures
        agrees(r, i32_at(buf@, pos as int)),
{
    match read_exact(buf, pos, 4) {
        Ok((bytes, next)) => Ok((be_read_i32(bytes), next)),
        Err(error) => Err(error),
    }
}

/// Reads a length or a count: negative values are refused.
pub fn read_length(buf: &[u8], pos: usize) -> (r: Result<(usize, usize), Error>)
    ensures
        agrees(r, length_at(buf@, pos as int)),
{
    match read_i32(buf, pos) {
        Ok((value, next)) => {
            if value < 0 {
                Err(Error::InvalidLength(value))
            } else {
                Ok((value as usize, next))
            }
        },
        Err(error) => Err(error),
    }
}

/// Reads a length-prefixed block and hands back its bytes.
pub fn read_block<'a>(buf: &'a [u8], pos: usize) -> (r: Result<(&'a [u8], usize), Error>)
    ensures
        match r {
            Ok((bytes, next)) => block_at(buf@, pos as int) == Ok::<(Seq<u8>, int), Fault>(
                (bytes@, next as int),
            ),
            Err(error) => block_at(buf@, pos as int) == Err::<(Seq<u8>, int), Fault>(error@),
        },
{
    match read_length(buf, pos) {
        Ok((len, next)) => read_exact(buf, next, len),
        Err(error) => Err(error),
    }
}

} // verus!
