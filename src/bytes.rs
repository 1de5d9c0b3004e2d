//! Big-endian integers and UTF-8 text read from raw bytes.
use vstd::prelude::*;

use byteorder::{BigEndian, ByteOrder};

verus! {

/// The unsigned value of the two bytes at `at`, most significant first.
pub open spec fn be16(b: Seq<u8>, at: int) -> nat {
    b[at] as nat * 0x100 + b[at + 1] as nat
}

/// The unsigned value of the four bytes at `at`, most significant first.
pub open spec fn be32(b: Seq<u8>, at: int) -> nat {
    b[at] as nat * 0x100_0000 + b[at + 1] as nat * 0x1_0000 + b[at + 2] as nat * 0x100
        + b[at + 3] as nat
}

/// The unsigned value of the eight bytes at `at`, most significant first.
pub open spec fn be64(b: Seq<u8>, at: int) -> nat {
    be32(b, at) * 0x1_0000_0000 + be32(b, at + 4)
}

/// A 32-bit word read as a two's complement integer.
pub open spec fn signed32(u: nat) -> int {
    if u < 0x8000_0000 {
        u as int
    } else {
        u - 0x1_0000_0000
    }
}

/// A 64-bit word read as a two's complement integer.
pub open spec fn signed64(u: nat) -> int {
    if u < 0x8000_0000_0000_0000 {
        u as int
    } else {
        u - 0x1_0000_0000_0000_0000
    }
}

/// The text that a byte sequence encodes as UTF-8, or `None` where it is not
/// valid UTF-8.
pub uninterp spec fn utf8_text(b: Seq<u8>) -> Option<Seq<char>>;

/// Relies on `byteorder::BigEndian::read_u32`: the first four bytes, most
/// significant first.
#[verifier::external_body]
pub(crate) fn read_be_u32(buf: &[u8]) -> (r: u32)
    requires
        buf@.len() >= 4,
    ensures
        r as nat == be32(buf@, 0),
{
    BigEndian::read_u32(buf)
}

/// Relies on `byteorder::BigEndian::read_i32`: the first four bytes, most
/// significant first, as a two's complement integer.
#[verifier::external_body]
pub(crate) fn read_be_i32(buf: &[u8]) -> (r: i32)
    requires
        buf@.len() >= 4,
    ensures
        r as int == signed32(be32(buf@, 0)),
{
    BigEndian::read_i32(buf)
}

/// Relies on `byteorder::BigEndian::read_u64`: the first eight bytes, most
/// significant first.
#[verifier::external_body]
pub(crate) fn read_be_u64(buf: &[u8]) -> (r: u64)
    requires
        buf@.len() >= 8,
    ensures
        r as nat == be64(buf@, 0),
{
    BigEndian::read_u64(buf)
}

/// Relies on `byteorder::BigEndian::read_i64`: the first eight bytes, most
/// significant first, as a two's complement integer.
#[verifier::external_body]
pub(crate) fn read_be_i64(buf: &[u8]) -> (r: i64)
    requires
        buf@.len() >= 8,
    ensures
        r as int == signed64(be64(buf@, 0)),
{
    BigEndian::read_i64(buf)
}

/// Relies on `String::from_utf8`: the text the bytes encode, or `None` where
/// they are not valid UTF-8.
#[verifier::external_body]
pub(crate) fn decode_utf8(buf: Vec<u8>) -> (r: Option<String>)
    ensures
        match r {
            Some(s) => utf8_text(buf@) == Some(s@),
            None => utf8_text(buf@) is None,
        },
{
    String::from_utf8(buf).ok()
}

} // verus!
