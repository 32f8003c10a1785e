//! Fixed-width integers read from byte sequences in a chosen byte order.

use byteorder::{BigEndian, ByteOrder, LittleEndian, NativeEndian};
use vstd::prelude::*;

verus! {

/// The byte order in which multi-byte integers of an input are stored.
#[derive(Clone, Copy, Debug, PartialEq, Eq, Structural)]
pub enum Endian {
    Big,
    Little,
}

/// The unsigned 16-bit integer stored at `s[p..p + 2]` in byte order `e`.
pub open spec fn spec_u16(s: Seq<u8>, p: int, e: Endian) -> u16 {
    match e {
        Endian::Big => (s[p] as int * 0x100 + s[p + 1] as int) as u16,
        Endian::Little => (s[p + 1] as int * 0x100 + s[p] as int) as u16,
    }
}

/// The unsigned 32-bit integer stored at `s[p..p + 4]` in byte order `e`.
pub open spec fn spec_u32(s: Seq<u8>, p: int, e: Endian) -> u32 {
    match e {
        Endian::Big => (s[p] as int * 0x1000000 + s[p + 1] as int * 0x10000 + s[p + 2] as int
            * 0x100 + s[p + 3] as int) as u32,
        Endian::Little => (s[p + 3] as int * 0x1000000 + s[p + 2] as int * 0x10000 + s[p + 1] as int
            * 0x100 + s[p] as int) as u32,
    }
}

/// Relies on byteorder's `BigEndian::read_u16`: the first two bytes, most significant first.
#[verifier::external_body]
fn be_read_u16(b: &[u8]) -> (r: u16)
    requires
        b@.len() >= 2,
    ensures
        r == spec_u16(b@, 0, Endian::Big),
{
    BigEndian::read_u16(b)
}

/// Relies on byteorder's `BigEndian::read_u32`: the first four bytes, most significant first.
#[verifier::external_body]
fn be_read_u32(b: &[u8]) -> (r: u32)
    requires
        b@.len() >= 4,
    ensures
        r == spec_u32(b@, 0, Endian::Big),
{
    BigEndian::read_u32(b)
}

/// Relies on byteorder's `LittleEndian::read_u16`: the first two bytes, least significant first.
#[verifier::external_body]
fn le_read_u16(b: &[u8]) -> (r: u16)
    requires
        b@.len() >= 2,
    ensures
        r == spec_u16(b@, 0, Endian::Little),
{
    LittleEndian::read_u16(b)
}

/// Relies on byteorder's `LittleEndian::read_u32`: the first four bytes, least significant first.
#[verifier::external_body]
fn le_read_u32(b: &[u8]) -> (r: u32)
    requires
        b@.len() >= 4,
    ensures
        r == spec_u32(b@, 0, Endian::Little),
{
    LittleEndian::read_u32(b)
}

/// Relies on byteorder's `NativeEndian::read_u16`, which is `LittleEndian` or
/// `BigEndian` depending on the target: the two bytes read in one order or the other.
#[verifier::external_body]
fn native_read_u16(b: &[u8]) -> (r: u16)
    requires
        b@.len() >= 2,
    ensures
        r == spec_u16(b@, 0, Endian::Little) || r == spec_u16(b@, 0, Endian::Big),
{
    NativeEndian::read_u16(b)
}

impl Endian {
    /// The byte order of the machine running this code.
    pub fn native() -> (r: Endian) {
        let probe: [u8; 2] = [1u8, 0u8];
        let v = native_read_u16(probe.as_slice());
        if v == 1 {
            Endian::Little
        } else {
            Endian::Big
        }
    }
}

/// Reads the unsigned 16-bit integer at `s[p..p + 2]` in byte order `e`.
pub fn read_u16_at(s: &[u8], p: usize, e: Endian) -> (r: u16)
    requires
        p + 2 <= s@.len(),
    ensures
        r == spec_u16(s@, p as int, e),
{
    let b = &s[p..s.len()];
    match e {
        Endian::Big => be_read_u16(b),
        Endian::Little => le_read_u16(b),
    }
}

/// Reads the unsigned 32-bit integer at `s[p..p + 4]` in byte order `e`.
pub fn read_u32_at(s: &[u8], p: usize, e: Endian) -> (r: u32)
    requires
        p + 4 <= s@.len(),
    ensures
        r == spec_u32(s@, p as int, e),
{
    let b = &s[p..s.len()];
    match e {
        Endian::Big => be_read_u32(b),
        Endian::Little => le_read_u32(b),
    }
}

/// Whether `a` and `b` hold the same bytes.
pub fn bytes_equal(a: &[u8], b: &[u8]) -> (r: bool)
    ensures
        r == (a@ == b@),
{
    if a.len() != b.len() {
        return false;
    }
    let mut i: usize = 0;
    while i < a.len()
        invariant
            a@.len() == b@.len(),
            i <= a@.len(),
            a@.subrange(0, i as int) == b@.subrange(0, i as int),
        decreases a@.len() - i,
    {
        if a[i] != b[i] {
            return false;
        }
        assert(a@.subrange(0, i + 1) =~= b@.subrange(0, i + 1)) by {
            assert(a@.subrange(0, i + 1) =~= a@.subrange(0, i as int).push(a@[i as int]));
            assert(b@.subrange(0, i + 1) =~= b@.subrange(0, i as int).push(b@[i as int]));
        }
        i = i + 1;
    }
    assert(a@ =~= a@.subrange(0, i as int));
    assert(b@ =~= b@.subrange(0, i as int));
    true
}

/// The signed 32-bit integer whose two's-complement bits are `v`.
pub open spec fn signed32(v: u32) -> i32 {
    if v < 0x8000_0000 {
        v as i32
    } else {
        (v - 0x1_0000_0000) as i32
    }
}

/// The signed 64-bit integer whose two's-complement bits are `v`.
pub open spec fn signed64(v: u64) -> i64 {
    if v < 0x8000_0000_0000_0000 {
        v as i64
    } else {
        (v - 0x1_0000_0000_0000_0000) as i64
    }
}

/// The two's-complement bits of the signed 32-bit integer `v`.
pub open spec fn unsigned32(v: i32) -> u32 {
    if v >= 0 {
        v as u32
    } else {
        (v + 0x1_0000_0000) as u32
    }
}

/// Reads the bits `v` as a two's-complement signed integer.
pub fn to_signed32(v: u32) -> (r: i32)
    ensures
        r == signed32(v),
{
    if v < 0x8000_0000 {
        v as i32
    } else {
        ((v - 0x8000_0000) as i32) + i32::MIN
    }
}

/// Reads the bits `v` as a two's-complement signed integer.
pub fn to_signed64(v: u64) -> (r: i64)
    ensures
        r == signed64(v),
{
    if v < 0x8000_0000_0000_0000 {
        v as i64
    } else {
        ((v - 0x8000_0000_0000_0000) as i64) + i64::MIN
    }
}

/// The two's-complement bits of `v`.
pub fn to_unsigned32(v: i32) -> (r: u32)
    ensures
        r == unsigned32(v),
{
    if v >= 0 {
        v as u32
    } else {
        ((v - i32::MIN) as u32) + 0x8000_0000
    }
}

} // verus!
