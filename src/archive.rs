//! The module image archive: header, perfect-hash index, packed resource
//! attributes, lookup by path and iteration over all resources.

use crate::bytes::{
    read_u16_at, read_u32_at, signed32, spec_u16, spec_u32, to_signed32, to_unsigned32, unsigned32,
    Endian,
};
use vstd::prelude::*;
use vstd::string::{StringExecFns, StringSliceAdditionalSpecFns};
use vstd::utf8::{encode_utf8, is_ascii_chars, is_ascii_chars_encode_utf8, valid_utf8};

verus! {

/// The multiplier of the archive's string hash (the 32-bit FNV prime), also
/// the seed of its first round.
pub const HASH_MULTIPLIER: i32 = 0x01000193;

/// The magic number that opens every archive.
pub const ARCHIVE_MAGIC: u32 = 0xCAFEDADA;

/// Bytes taken by the magic number and the fixed header fields.
pub const HEADER_SIZE: usize = 28;

/// Why an archive or one of its attribute streams could not be decoded.
#[derive(Clone, Copy, Debug, PartialEq, Eq, Structural)]
pub enum JImageError {
    /// The input ended before the structure being read was complete.
    IOError,
    /// An attribute record names a kind outside 1..=7.
    InvalidAttributeKind(u8),
    /// The first four bytes are not the archive magic number.
    InvalidMagicIdentifier(u32),
}

/// The attribute slots of a resource, in the order of their kind codes 1..=7.
#[derive(Clone, Copy, Debug, PartialEq, Eq, Structural)]
pub enum AttributeKind {
    Module,
    Parent,
    Base,
    Extension,
    Offset,
    Compressed,
    Uncompressed,
}

impl AttributeKind {
    /// The slot of this kind in a resource's attribute array.
    pub open spec fn spec_slot(self) -> int {
        match self {
            AttributeKind::Module => 0,
            AttributeKind::Parent => 1,
            AttributeKind::Base => 2,
            AttributeKind::Extension => 3,
            AttributeKind::Offset => 4,
            AttributeKind::Compressed => 5,
            AttributeKind::Uncompressed => 6,
        }
    }

    pub fn slot(self) -> (r: usize)
        ensures
            r == self.spec_slot(),
    {
        match self {
            AttributeKind::Module => 0,
            AttributeKind::Parent => 1,
            AttributeKind::Base => 2,
            AttributeKind::Extension => 3,
            AttributeKind::Offset => 4,
            AttributeKind::Compressed => 5,
            AttributeKind::Uncompressed => 6,
        }
    }

    /// The kind with code `code`, if `code` is one of 1..=7.
    pub open spec fn spec_from_code(code: u8) -> Option<AttributeKind> {
        if code == 1 {
            Some(AttributeKind::Module)
        } else if code == 2 {
            Some(AttributeKind::Parent)
        } else if code == 3 {
            Some(AttributeKind::Base)
        } else if code == 4 {
            Some(AttributeKind::Extension)
        } else if code == 5 {
            Some(AttributeKind::Offset)
        } else if code == 6 {
            Some(AttributeKind::Compressed)
        } else if code == 7 {
            Some(AttributeKind::Uncompressed)
        } else {
            None
        }
    }

    /// The kind with code `value`; any other code is handed back as the error.
    pub fn try_from(value: u8) -> (r: Result<AttributeKind, u8>)
        ensures
            match AttributeKind::spec_from_code(value) {
                Some(k) => r == Ok::<AttributeKind, u8>(k),
                None => r == Err::<AttributeKind, u8>(value),
            },
    {
        match value {
            1 => Ok(AttributeKind::Module),
            2 => Ok(AttributeKind::Parent),
            3 => Ok(AttributeKind::Base),
            4 => Ok(AttributeKind::Extension),
            5 => Ok(AttributeKind::Offset),
            6 => Ok(AttributeKind::Compressed),
            7 => Ok(AttributeKind::Uncompressed),
            _ => Err(value),
        }
    }
}

/// The unsigned 32-bit state of the string hash after folding `data` into `seed`.
pub open spec fn spec_hash_state(data: Seq<u8>, seed: u32) -> u32
    decreases data.len(),
{
    if data.len() == 0 {
        seed
    } else {
        spec_hash_state(data.drop_last(), seed).wrapping_mul(HASH_MULTIPLIER as u32) ^ (
        data.last() as u32)
    }
}

/// The archive's string hash of `data` with seed `seed`, sign bit cleared.
pub open spec fn spec_hash(data: Seq<u8>, seed: i32) -> i32 {
    (spec_hash_state(data, unsigned32(seed)) & 0x7fff_ffff) as i32
}

/// Hashes the bytes of `data`: starting from `seed`, each byte is folded in as
/// `u = u * HASH_MULTIPLIER ^ byte` modulo 2^32; the sign bit of the result is cleared.
pub fn hash(data: &str, seed: i32) -> (r: i32)
    ensures
        r == spec_hash(data.spec_bytes(), seed),
        r >= 0,
{
    let b = data.as_bytes();
    let mut u: u32 = to_unsigned32(seed);
    let mut i: usize = 0;
    while i < b.len()
        invariant
            i <= b@.len(),
            u == spec_hash_state(b@.subrange(0, i as int), unsigned32(seed)),
        decreases b@.len() - i,
    {
        assert(b@.subrange(0, i + 1).drop_last() =~= b@.subrange(0, i as int));
        u = u.wrapping_mul(HASH_MULTIPLIER as u32) ^ (b[i] as u32);
        i = i + 1;
    }
    assert(b@.subrange(0, b@.len() as int) =~= b@);
    let masked: u32 = u & 0x7fff_ffff;
    assert(masked <= 0x7fff_ffff) by (bit_vector)
        requires
            masked == u & 0x7fff_ffff,
    ;
    masked as i32
}

/// The unsigned value of `s`, most significant byte first.
pub open spec fn spec_be_value(s: Seq<u8>) -> nat
    decreases s.len(),
{
    if s.len() == 0 {
        0
    } else {
        spec_be_value(s.drop_last()) * 0x100 + s.last() as nat
    }
}

proof fn lemma_be_value_bound(s: Seq<u8>)
    ensures
        spec_be_value(s) < pow256(s.len()),
    decreases s.len(),
{
    if s.len() > 0 {
        lemma_be_value_bound(s.drop_last());
        assert(pow256(s.len() as nat) == pow256((s.len() - 1) as nat) * 0x100);
        assert(spec_be_value(s.drop_last()) * 0x100 + s.last() < pow256(s.len())) by (nonlinear_arith)
            requires
                spec_be_value(s.drop_last()) < pow256((s.len() - 1) as nat),
                s.last() < 0x100,
                pow256(s.len() as nat) == pow256((s.len() - 1) as nat) * 0x100,
        ;
    }
}

spec fn pow256(n: nat) -> nat
    decreases n,
{
    if n == 0 {
        1
    } else {
        pow256((n - 1) as nat) * 0x100
    }
}

proof fn lemma_pow256_monotone(a: nat, b: nat)
    requires
        a <= b,
    ensures
        pow256(a) <= pow256(b),
    decreases b,
{
    if a < b {
        lemma_pow256_monotone(a, (b - 1) as nat);
    }
}

/// One record of a packed attribute stream at `pos`: `Ok((None, _))` for the
/// terminator, `Ok((Some((kind, value)), next))` for a record, or the error
/// that stops the stream.
pub open spec fn spec_attribute(data: Seq<u8>, pos: int) -> Result<
    (Option<(AttributeKind, u64)>, int),
    JImageError,
> {
    if pos < 0 || pos >= data.len() {
        Err(JImageError::IOError)
    } else {
        let header = data[pos];
        let kind = header >> 3u8;
        let length = (header & 7u8) + 1;
        if kind == 0 {
            Ok((None, pos + 1))
        } else if AttributeKind::spec_from_code(kind) is None {
            Err(JImageError::InvalidAttributeKind(kind))
        } else if pos + 1 + length > data.len() {
            Err(JImageError::IOError)
        } else {
            Ok(
                (
                    Some(
                        (
                            AttributeKind::spec_from_code(kind)->0,
                            spec_be_value(data.subrange(pos + 1, pos + 1 + length)) as u64,
                        ),
                    ),
                    pos + 1 + length,
                ),
            )
        }
    }
}

/// The attribute slots produced by the stream at `pos`, starting from `slots`:
/// each record overwrites its kind's slot, up to the terminator.
pub open spec fn spec_attributes(data: Seq<u8>, pos: int, slots: Seq<u64>) -> Result<
    Seq<u64>,
    JImageError,
>
    decreases data.len() - pos,
{
    match spec_attribute(data, pos) {
        Err(e) => Err(e),
        Ok((None, _)) => Ok(slots),
        Ok((Some((kind, value)), next)) => {
            if pos < next <= data.len() {
                spec_attributes(data, next, slots.update(kind.spec_slot(), value))
            } else {
                Err(JImageError::IOError)
            }
        },
    }
}

/// Seven empty attribute slots.
pub open spec fn empty_slots() -> Seq<u64> {
    seq![0u64, 0u64, 0u64, 0u64, 0u64, 0u64, 0u64]
}

/// The 16-bit integer read at `p`, and the position after it.
pub open spec fn spec_read_u16(s: Seq<u8>, p: int, e: Endian) -> Result<(u16, int), JImageError> {
    if 0 <= p && p + 2 <= s.len() {
        Ok((spec_u16(s, p, e), p + 2))
    } else {
        Err(JImageError::IOError)
    }
}

/// The 32-bit integer read at `p`, and the position after it.
pub open spec fn spec_read_u32(s: Seq<u8>, p: int, e: Endian) -> Result<(u32, int), JImageError> {
    if 0 <= p && p + 4 <= s.len() {
        Ok((spec_u32(s, p, e), p + 4))
    } else {
        Err(JImageError::IOError)
    }
}

/// The magic number check at `p`.
pub open spec fn spec_magic(s: Seq<u8>, p: int, e: Endian) -> Result<((), int), JImageError> {
    match spec_read_u32(s, p, e) {
        Err(err) => Err(err),
        Ok((m, q)) => if m == ARCHIVE_MAGIC {
            Ok(((), q))
        } else {
            Err(JImageError::InvalidMagicIdentifier(m))
        },
    }
}

/// The version at `p`: the file stores the minor number first; the result is `(major, minor)`.
pub open spec fn spec_version(s: Seq<u8>, p: int, e: Endian) -> Result<((u16, u16), int), JImageError> {
    if 0 <= p && p + 4 <= s.len() {
        Ok(((spec_u16(s, p + 2, e), spec_u16(s, p, e)), p + 4))
    } else {
        Err(JImageError::IOError)
    }
}

/// The archive header at `p`, magic number included.
pub open spec fn spec_header(s: Seq<u8>, p: int, e: Endian) -> Result<(Header, int), JImageError> {
    match spec_magic(s, p, e) {
        Err(err) => Err(err),
        Ok((_, q)) => if q + 24 <= s.len() {
            Ok(
                (
                    Header {
                        version: (spec_u16(s, q + 2, e), spec_u16(s, q, e)),
                        flags: spec_u32(s, q + 4, e),
                        resource_count: spec_u32(s, q + 8, e),
                        table_length: spec_u32(s, q + 12, e),
                        attributes_size: spec_u32(s, q + 16, e),
                        strings_size: spec_u32(s, q + 20, e),
                    },
                    q + 24,
                ),
            )
        } else {
            Err(JImageError::IOError)
        },
    }
}

/// The fixed fields of an archive header.
#[derive(Clone, Copy, Debug)]
pub struct Header {
    /// `(major, minor)`.
    pub version: (u16, u16),
    pub flags: u32,
    pub resource_count: u32,
    /// Number of entries of the redirect table and of the attribute offset table.
    pub table_length: u32,
    /// Bytes of packed attribute streams.
    pub attributes_size: u32,
    /// Bytes of the NUL-terminated string pool.
    pub strings_size: u32,
}

impl Header {
    /// Bytes from the start of the archive to the end of its string pool.
    pub open spec fn spec_index_size(&self) -> int {
        HEADER_SIZE + self.spec_tables_size() + self.attributes_size + self.strings_size
    }

    /// Bytes of the redirect table and the attribute offset table together.
    pub open spec fn spec_tables_size(&self) -> int {
        8 * self.table_length
    }

    /// Bytes from the start of the archive to the end of its string pool.
    pub fn index_size(&self) -> (r: usize)
        requires
            self.spec_index_size() <= usize::MAX,
        ensures
            r == self.spec_index_size(),
    {
        HEADER_SIZE + self.redirect_table_size() + self.attribute_offsets_size()
            + self.attributes_size as usize + self.strings_size as usize
    }

    /// Bytes of the redirect table: four per entry.
    pub fn redirect_table_size(&self) -> (r: usize)
        requires
            4 * self.table_length <= usize::MAX,
        ensures
            r == 4 * self.table_length,
    {
        self.table_length as usize * 4
    }

    /// Bytes of the attribute offset table: four per entry.
    pub fn attribute_offsets_size(&self) -> (r: usize)
        requires
            4 * self.table_length <= usize::MAX,
        ensures
            r == 4 * self.table_length,
    {
        self.table_length as usize * 4
    }
}

/// A cursor over archive bytes that reads multi-byte integers in one byte order.
pub struct Parser<'a> {
    buf: &'a [u8],
    pos: usize,
    endian: Endian,
}

impl<'a> Parser<'a> {
    /// The bytes being read.
    pub closed spec fn input(&self) -> Seq<u8> {
        self.buf@
    }

    /// The position of the next byte to read.
    pub closed spec fn position(&self) -> int {
        self.pos as int
    }

    /// The byte order of multi-byte integers.
    pub closed spec fn byte_order(&self) -> Endian {
        self.endian
    }

    /// Whether `next` reads the same bytes in the same order as `self`.
    pub open spec fn same_source(&self, next: &Parser<'a>) -> bool {
        next.input() == self.input() && next.byte_order() == self.byte_order()
    }

    pub fn new(buf: &'a [u8], endian: Endian) -> (r: Parser<'a>)
        ensures
            r.input() == buf@,
            r.position() == 0,
            r.byte_order() == endian,
    {
        Parser { buf, pos: 0, endian }
    }

    fn read_u8(&mut self) -> (r: Result<u8, JImageError>)
        ensures
            old(self).same_source(final(self)),
            match r {
                Ok(v) => 0 <= old(self).position() < old(self).input().len() && v == old(self).input()[old(self).position()] && final(self).position() == old(self).position()
                    + 1,
                Err(e) => e == JImageError::IOError && old(self).position() >= old(self).input().len(),
            },
    {
        if self.pos < self.buf.len() {
            let v = self.buf[self.pos];
            self.pos = self.pos + 1;
            Ok(v)
        } else {
            Err(JImageError::IOError)
        }
    }

    fn read_u16(&mut self) -> (r: Result<u16, JImageError>)
        ensures
            old(self).same_source(final(self)),
            match r {
                Ok(v) => spec_read_u16(old(self).input(), old(self).position(), old(self).byte_order())
                    == Ok::<(u16, int), JImageError>((v, final(self).position())),
                Err(e) => spec_read_u16(old(self).input(), old(self).position(), old(self).byte_order())
                    == Err::<(u16, int), JImageError>(e),
            },
    {
        if self.pos < self.buf.len() && self.buf.len() - self.pos >= 2 {
            let v = read_u16_at(self.buf, self.pos, self.endian);
            self.pos = self.pos + 2;
            Ok(v)
        } else {
            Err(JImageError::IOError)
        }
    }

    fn read_u32(&mut self) -> (r: Result<u32, JImageError>)
        ensures
            old(self).same_source(final(self)),
            match r {
                Ok(v) => spec_read_u32(old(self).input(), old(self).position(), old(self).byte_order())
                    == Ok::<(u32, int), JImageError>((v, final(self).position())),
                Err(e) => spec_read_u32(old(self).input(), old(self).position(), old(self).byte_order())
                    == Err::<(u32, int), JImageError>(e),
            },
    {
        if self.pos < self.buf.len() && self.buf.len() - self.pos >= 4 {
            let v = read_u32_at(self.buf, self.pos, self.endian);
            self.pos = self.pos + 4;
            Ok(v)
        } else {
            Err(JImageError::IOError)
        }
    }

    /// Reads the magic number and checks that it is `ARCHIVE_MAGIC`.
    pub fn parse_magic_identifier(&mut self) -> (r: Result<(), JImageError>)
        ensures
            old(self).same_source(final(self)),
            match r {
                Ok(v) => spec_magic(old(self).input(), old(self).position(), old(self).byte_order())
                    == Ok::<((), int), JImageError>((v, final(self).position())),
                Err(e) => spec_magic(old(self).input(), old(self).position(), old(self).byte_order())
                    == Err::<((), int), JImageError>(e),
            },
    {
        let m = self.read_u32()?;
        if m == ARCHIVE_MAGIC {
            Ok(())
        } else {
            Err(JImageError::InvalidMagicIdentifier(m))
        }
    }

    /// Reads the version, stored minor number first, as `(major, minor)`.
    pub fn parse_version(&mut self) -> (r: Result<(u16, u16), JImageError>)
        ensures
            old(self).same_source(final(self)),
            match r {
                Ok(v) => spec_version(old(self).input(), old(self).position(), old(self).byte_order())
                    == Ok::<((u16, u16), int), JImageError>((v, final(self).position())),
                Err(e) => spec_version(old(self).input(), old(self).position(), old(self).byte_order())
                    == Err::<((u16, u16), int), JImageError>(e),
            },
    {
        let minor = self.read_u16()?;
        let major = self.read_u16()?;
        Ok((major, minor))
    }

    /// Reads the magic number and the fixed header fields.
    pub fn parse_header(&mut self) -> (r: Result<Header, JImageError>)
        ensures
            old(self).same_source(final(self)),
            match r {
                Ok(v) => spec_header(old(self).input(), old(self).position(), old(self).byte_order())
                    == Ok::<(Header, int), JImageError>((v, final(self).position())),
                Err(e) => spec_header(old(self).input(), old(self).position(), old(self).byte_order())
                    == Err::<(Header, int), JImageError>(e),
            },
    {
        self.parse_magic_identifier()?;
        let version = self.parse_version()?;
        let flags = self.read_u32()?;
        let resource_count = self.read_u32()?;
        let table_length = self.read_u32()?;
        let attributes_size = self.read_u32()?;
        let strings_size = self.read_u32()?;
        Ok(Header { version, flags, resource_count, table_length, attributes_size, strings_size })
    }

    /// Reads the redirect table, the attribute offset table, the attribute
    /// streams and the string pool that `header` describes.
    #[verifier::rlimit(30)]
    pub fn parse_index(&mut self, header: &Header) -> (r: Result<Index, JImageError>)
        ensures
            old(self).same_source(final(self)),
            ({
                let end = old(self).position() + header.spec_tables_size() + header.attributes_size
                    + header.strings_size;
                match r {
                    Ok(ix) => end <= old(self).input().len() && ix.is_index_of(
                        old(self).input(),
                        old(self).position(),
                        old(self).byte_order(),
                        *header,
                    ) && final(self).position() == end,
                    Err(e) => e == JImageError::IOError && end > old(self).input().len(),
                }
            }),
    {
        let ghost s = self.buf@;
        let ghost p = self.pos as int;
        let e = self.endian;
        let t = header.table_length as usize;
        let n = self.buf.len();
        if self.pos > n {
            return Err(JImageError::IOError);
        }
        let need: u64 = 8 * header.table_length as u64 + header.attributes_size as u64
            + header.strings_size as u64;
        if need > (n - self.pos) as u64 {
            return Err(JImageError::IOError);
        }
        let start = self.pos;
        let mut redirect_table: Vec<i32> = Vec::new();
        let mut i: usize = 0;
        while i < t
            invariant
                self.buf@ == s,
                n == s.len(),
                start == p,
                start + 8 * t <= n,
                i <= t,
                redirect_table@.len() == i,
                forall|j: int| 0 <= j < i ==> redirect_table@[j] == signed32(spec_u32(s, p + 4 * j, e)),
            decreases t - i,
        {
            let v = read_u32_at(self.buf, start + 4 * i, e);
            redirect_table.push(to_signed32(v));
            i = i + 1;
        }
        let mut attribute_offsets: Vec<u32> = Vec::new();
        let mut i: usize = 0;
        while i < t
            invariant
                self.buf@ == s,
                n == s.len(),
                start == p,
                start + 8 * t <= n,
                i <= t,
                attribute_offsets@.len() == i,
                forall|j: int|
                    0 <= j < i ==> attribute_offsets@[j] == spec_u32(s, p + 4 * t + 4 * j, e),
            decreases t - i,
        {
            let v = read_u32_at(self.buf, start + 4 * t + 4 * i, e);
            attribute_offsets.push(v);
            i = i + 1;
        }
        let a_start = start + 8 * t;
        let s_start = a_start + header.attributes_size as usize;
        let s_end = s_start + header.strings_size as usize;
        let attribute_data = vstd::slice::slice_to_vec(&self.buf[a_start..s_start]);
        let strings_data = vstd::slice::slice_to_vec(&self.buf[s_start..s_end]);
        self.pos = s_end;
        let ix = Index { redirect_table, attribute_offsets, strings_data, attribute_data };
        assert(ix.redirects() =~= Seq::new(t as nat, |i: int| signed32(spec_u32(s, p + 4 * i, e))));
        assert(ix.offsets() =~= Seq::new(t as nat, |i: int| spec_u32(s, p + 4 * t + 4 * i, e)));
        Ok(ix)
    }

    /// Reads a whole archive from the current position: header, then index.
    pub fn parse_archive(self) -> (r: Result<Archive<'a>, JImageError>)
        ensures
            match r {
                Ok(a) => a.is_archive_of(self.input(), self.position(), self.byte_order()),
                Err(e) => spec_archive(self.input(), self.position(), self.byte_order()) == Err::<
                    Header,
                    JImageError,
                >(e),
            },
    {
        let mut parser = self;
        let header = parser.parse_header()?;
        let index = parser.parse_index(&header)?;
        let resource_data_start = parser.pos;
        Ok(Archive { buf: parser.buf, header, index, resource_data_start })
    }

    /// Reads one attribute record: `None` for the terminator (kind 0), else its
    /// kind and its value of `(header & 7) + 1` bytes, most significant first.
    #[verifier::rlimit(30)]
    pub fn parse_attribute(&mut self) -> (r: Result<Option<(AttributeKind, u64)>, JImageError>)
        ensures
            old(self).same_source(final(self)),
            match r {
                Ok(v) => spec_attribute(old(self).input(), old(self).position()) == Ok::<
                    (Option<(AttributeKind, u64)>, int),
                    JImageError,
                >((v, final(self).position())),
                Err(e) => spec_attribute(old(self).input(), old(self).position()) == Err::<
                    (Option<(AttributeKind, u64)>, int),
                    JImageError,
                >(e),
            },
    {
        let ghost s = self.buf@;
        let ghost p = self.pos as int;
        let header = self.read_u8()?;
        let kind_code: u8 = header >> 3u8;
        let length: usize = (header & 7u8) as usize + 1;
        if kind_code == 0 {
            return Ok(None);
        }
        let kind = match AttributeKind::try_from(kind_code) {
            Ok(k) => k,
            Err(code) => {
                return Err(JImageError::InvalidAttributeKind(code));
            },
        };
        if self.buf.len() - self.pos < length {
            return Err(JImageError::IOError);
        }
        let n = self.buf.len();
        let mut value: u64 = 0;
        let mut i: usize = 0;
        assert(length <= 8) by (bit_vector)
            requires
                length == (header & 7u8) as usize + 1,
        ;
        while i < length
            invariant
                self.buf@ == s,
                self.pos == p + 1,
                i <= length <= 8,
                self.pos + length <= s.len(),
                n == s.len(),
                value as nat == spec_be_value(s.subrange(p + 1, p + 1 + i)),
            decreases length - i,
        {
            let b = self.buf[self.pos + i];
            let ghost prefix = s.subrange(p + 1, p + 1 + i);
            proof {
                lemma_be_value_bound(prefix);
                lemma_pow256_monotone(i as nat, 7);
                reveal_with_fuel(pow256, 8);
                assert(pow256(7) == 0x100000000000000);
                assert(s.subrange(p + 1, p + 1 + i + 1).drop_last() =~= prefix);
            }
            let shifted: u64 = value << 8u64;
            assert(shifted == value * 0x100 && (shifted | b as u64) == shifted + b) by (bit_vector)
                requires
                    value < 0x100000000000000,
                    shifted == value << 8u64,
            ;
            value = shifted | b as u64;
            i = i + 1;
        }
        self.pos = self.pos + length;
        Ok(Some((kind, value)))
    }

    /// Reads attribute records up to the terminator into seven slots indexed by
    /// kind; slots that no record names stay zero, and a later record of a kind
    /// overwrites an earlier one.
    pub fn parse_attributes(&mut self) -> (r: Result<[u64; 7], JImageError>)
        ensures
            match r {
                Ok(a) => spec_attributes(old(self).input(), old(self).position(), empty_slots())
                    == Ok::<Seq<u64>, JImageError>(a@),
                Err(e) => spec_attributes(old(self).input(), old(self).position(), empty_slots())
                    == Err::<Seq<u64>, JImageError>(e),
            },
    {
        let ghost s = self.buf@;
        let ghost p0 = self.pos as int;
        let mut slots: [u64; 7] = [0u64; 7];
        assert(slots@ =~= empty_slots());
        loop
            invariant
                self.buf@ == s,
                s == old(self).input(),
                p0 == old(self).position(),
                slots@.len() == 7,
                spec_attributes(s, p0, empty_slots()) == spec_attributes(s, self.pos as int, slots@),
            decreases s.len() - self.pos,
        {
            let ghost before = self.pos as int;
            let ghost old_slots = slots@;
            match self.parse_attribute() {
                Err(e) => {
                    assert(spec_attributes(s, before, slots@) == Err::<Seq<u64>, JImageError>(e));
                    return Err(e);
                },
                Ok(None) => {
                    assert(spec_attributes(s, before, slots@) == Ok::<Seq<u64>, JImageError>(slots@));
                    return Ok(slots);
                },
                Ok(Some((kind, value))) => {
                    let k = kind.slot();
                    slots[k] = value;
                    assert(spec_attributes(s, before, old_slots) == spec_attributes(s, self.pos as int, slots@));
                },
            }
        }
    }
}

/// The archive's index tables, copied out of the archive bytes.
#[derive(Debug)]
pub struct Index {
    redirect_table: Vec<i32>,
    attribute_offsets: Vec<u32>,
    strings_data: Vec<u8>,
    attribute_data: Vec<u8>,
}

impl Index {
    /// The redirect table: one signed entry per bucket.
    pub closed spec fn redirects(&self) -> Seq<i32> {
        self.redirect_table@
    }

    /// The offset of each slot's attribute stream within `attribute_bytes()`.
    pub closed spec fn offsets(&self) -> Seq<u32> {
        self.attribute_offsets@
    }

    /// The packed attribute streams.
    pub closed spec fn attribute_bytes(&self) -> Seq<u8> {
        self.attribute_data@
    }

    /// The NUL-terminated string pool.
    pub closed spec fn string_bytes(&self) -> Seq<u8> {
        self.strings_data@
    }

    /// Whether this index is the one stored at `p` in `s` for header `h`.
    pub open spec fn is_index_of(&self, s: Seq<u8>, p: int, e: Endian, h: Header) -> bool {
        let t = h.table_length as int;
        let q = p + 8 * t;
        &&& self.redirects() == Seq::new(t as nat, |i: int| signed32(spec_u32(s, p + 4 * i, e)))
        &&& self.offsets() == Seq::new(t as nat, |i: int| spec_u32(s, p + 4 * t + 4 * i, e))
        &&& self.attribute_bytes() == s.subrange(q, q + h.attributes_size)
        &&& self.string_bytes() == s.subrange(
            q + h.attributes_size,
            q + h.attributes_size + h.strings_size,
        )
    }
}

/// The header of the archive stored at `p` in `s`, or why there is none:
/// the index tables, attribute streams and string pool must all be present.
pub open spec fn spec_archive(s: Seq<u8>, p: int, e: Endian) -> Result<Header, JImageError> {
    match spec_header(s, p, e) {
        Err(err) => Err(err),
        Ok((h, q)) => if q + h.spec_tables_size() + h.attributes_size + h.strings_size <= s.len() {
            Ok(h)
        } else {
            Err(JImageError::IOError)
        },
    }
}

/// The bytes of `data` from `off` up to the first NUL or the end; empty where
/// `off` lies outside `data`.
pub open spec fn spec_c_string(data: Seq<u8>, off: int) -> Seq<u8>
    decreases data.len() - off,
{
    if off < 0 || off >= data.len() || data[off] == 0 {
        Seq::empty()
    } else {
        seq![data[off]] + spec_c_string(data, off + 1)
    }
}

/// The text of a string attribute: the NUL-terminated bytes at `off` in the
/// string pool where they are valid UTF-8, else nothing (the attribute is absent).
pub open spec fn spec_text(strings: Seq<u8>, off: u64) -> Seq<u8> {
    let c = spec_c_string(strings, off as int);
    if valid_utf8(c) {
        c
    } else {
        Seq::empty()
    }
}

/// The path that names a resource with the given module, parent, base and
/// extension: `/module/` if the module is present, `parent/` if the parent is
/// present, the base, and `.extension` if the extension is present.
pub open spec fn spec_full_name(m: Seq<u8>, p: Seq<u8>, b: Seq<u8>, e: Seq<u8>) -> Seq<u8> {
    module_part(m) + parent_part(p) + b + extension_part(e)
}

pub open spec fn module_part(m: Seq<u8>) -> Seq<u8> {
    if m.len() > 0 {
        seq![SLASH] + m + seq![SLASH]
    } else {
        Seq::empty()
    }
}

pub open spec fn parent_part(p: Seq<u8>) -> Seq<u8> {
    if p.len() > 0 {
        p + seq![SLASH]
    } else {
        Seq::empty()
    }
}

pub open spec fn extension_part(e: Seq<u8>) -> Seq<u8> {
    if e.len() > 0 {
        seq![DOT] + e
    } else {
        Seq::empty()
    }
}

/// `/` as a byte.
pub const SLASH: u8 = 0x2f;

/// `.` as a byte.
pub const DOT: u8 = 0x2e;

/// A decoded module image archive over the bytes it was read from.
pub struct Archive<'a> {
    buf: &'a [u8],
    header: Header,
    index: Index,
    resource_data_start: usize,
}

impl<'a> Archive<'a> {
    #[verifier::type_invariant]
    spec fn tables_agree(&self) -> bool {
        &&& self.index.redirect_table@.len() == self.index.attribute_offsets@.len()
        &&& self.index.redirect_table@.len() == self.header.table_length
    }

    /// The bytes the archive was read from.
    pub closed spec fn bytes_read(&self) -> Seq<u8> {
        self.buf@
    }

    pub closed spec fn spec_header(&self) -> Header {
        self.header
    }

    pub closed spec fn spec_index(&self) -> Index {
        self.index
    }

    /// Where resource payloads start: right after the string pool.
    pub closed spec fn data_start(&self) -> int {
        self.resource_data_start as int
    }

    /// Whether this archive is the one that `spec_archive` describes at `p` in `s`.
    pub open spec fn is_archive_of(&self, s: Seq<u8>, p: int, e: Endian) -> bool {
        let h = self.spec_header();
        &&& spec_archive(s, p, e) == Ok::<Header, JImageError>(h)
        &&& self.bytes_read() == s
        &&& self.spec_index().is_index_of(s, p + HEADER_SIZE, e, h)
        &&& self.data_start() == p + h.spec_index_size()
    }

    /// Decodes the archive in `buf`, whose integers are in the byte order of this machine.
    pub fn parse(buf: &'a [u8]) -> (r: Result<Archive<'a>, JImageError>)
        ensures
            match r {
                Ok(a) => a.is_archive_of(buf@, 0, Endian::Little) || a.is_archive_of(
                    buf@,
                    0,
                    Endian::Big,
                ),
                Err(err) => spec_archive(buf@, 0, Endian::Little) == Err::<Header, JImageError>(err)
                    || spec_archive(buf@, 0, Endian::Big) == Err::<Header, JImageError>(err),
            },
    {
        Parser::new(buf, Endian::native()).parse_archive()
    }

    pub fn header(&self) -> (r: &Header)
        ensures
            *r == self.spec_header(),
    {
        &self.header
    }

    pub fn index(&self) -> (r: &Index)
        ensures
            *r == self.spec_index(),
    {
        &self.index
    }

    /// Iterates over every slot of the attribute offset table, in slot order.
    pub fn resources(&'a self) -> (r: Resources<'a>)
        ensures
            r.spec_archive() == self,
            r.next_slot() == 0,
    {
        Resources { archive: self, index: 0 }
    }

    /// The slot that the two-step hash lookup picks for path `p`, if any:
    /// bucket `hash(p, HASH_MULTIPLIER) mod n` of the redirect table holds `r`;
    /// `r == 0` means absent, `r > 0` picks slot `hash(p, r) mod n`, and
    /// `r < 0` picks slot `-1 - r`.
    pub open spec fn lookup_slot(&self, p: Seq<u8>) -> Option<int> {
        let redirects = self.spec_index().redirects();
        let n = redirects.len() as int;
        if n == 0 {
            None
        } else {
            let r = redirects[spec_hash(p, HASH_MULTIPLIER) as int % n];
            if r == 0 {
                None
            } else if r > 0 {
                Some(spec_hash(p, r) as int % n)
            } else if -1 - r < n {
                Some(-1 - r)
            } else {
                None
            }
        }
    }

    /// The attribute slots decoded from the stream of table slot `i`.
    pub open spec fn decoded_slot(&self, i: int) -> Result<Seq<u64>, JImageError> {
        spec_attributes(
            self.spec_index().attribute_bytes(),
            self.spec_index().offsets()[i] as int,
            empty_slots(),
        )
    }

    /// The text of the string attribute of `kind` among `slots`.
    pub open spec fn text_of(&self, slots: Seq<u64>, kind: AttributeKind) -> Seq<u8> {
        spec_text(self.spec_index().string_bytes(), slots[kind.spec_slot()])
    }

    /// The full path of the resource with attribute slots `slots`.
    pub open spec fn full_name_of(&self, slots: Seq<u64>) -> Seq<u8> {
        spec_full_name(
            self.text_of(slots, AttributeKind::Module),
            self.text_of(slots, AttributeKind::Parent),
            self.text_of(slots, AttributeKind::Base),
            self.text_of(slots, AttributeKind::Extension),
        )
    }

    /// The attribute slots of the resource named `p`: those of the slot that the
    /// lookup picks, provided its stream decodes and its full name is `p`.
    pub open spec fn spec_by_name(&self, p: Seq<u8>) -> Option<Seq<u64>> {
        match self.lookup_slot(p) {
            None => None,
            Some(i) => match self.decoded_slot(i) {
                Err(_) => None,
                Ok(slots) => if p == self.full_name_of(slots) {
                    Some(slots)
                } else {
                    None
                },
            },
        }
    }

    fn decode_slot(&self, i: usize) -> (r: Result<[u64; 7], JImageError>)
        requires
            i < self.spec_index().offsets().len(),
        ensures
            match r {
                Ok(a) => self.decoded_slot(i as int) == Ok::<Seq<u64>, JImageError>(a@),
                Err(e) => self.decoded_slot(i as int) == Err::<Seq<u64>, JImageError>(e),
            },
    {
        let off = self.index.attribute_offsets[i];
        let mut parser = Parser {
            buf: self.index.attribute_data.as_slice(),
            pos: off as usize,
            endian: Endian::Big,
        };
        parser.parse_attributes()
    }

    /// Looks up the resource whose full path is `path`.
    #[verifier::rlimit(30)]
    pub fn by_name(&'a self, path: &str) -> (r: Option<Resource<'a>>)
        ensures
            match r {
                Some(res) => res.spec_archive() == self && self.spec_by_name(path.spec_bytes())
                    == Some(res.slots()),
                None => self.spec_by_name(path.spec_bytes()) is None,
            },
    {
        proof {
            use_type_invariant(self);
        }
        let n = self.index.redirect_table.len();
        if n == 0 {
            return None;
        }
        let h = hash(path, HASH_MULTIPLIER);
        let value = self.index.redirect_table[(h as usize) % n];
        if value == 0 {
            return None;
        }
        let slot: usize = if value > 0 {
            (hash(path, value) as usize) % n
        } else {
            let d: i32 = -1 - value;
            if (d as usize) < n {
                d as usize
            } else {
                return None;
            }
        };
        let attributes = match self.decode_slot(slot) {
            Ok(a) => a,
            Err(_) => {
                return None;
            },
        };
        let resource = Resource { attributes, archive: self };
        if Archive::verify(&resource, path) {
            Some(resource)
        } else {
            None
        }
    }

    /// Whether `path` is the full path of `resource`: `/module/` (if the module
    /// is present), `parent/` (if the parent is present), the base, and
    /// `.extension` (if the extension is present), and nothing more.
    pub fn verify(resource: &Resource, path: &str) -> (r: bool)
        ensures
            r == (path.spec_bytes() == resource.spec_full_name()),
            r == spec_path_verifies(
                resource.text(AttributeKind::Module),
                resource.text(AttributeKind::Parent),
                resource.text(AttributeKind::Base),
                resource.text(AttributeKind::Extension),
                path.spec_bytes(),
            ),
    {
        proof {
            lemma_verification_is_full_name(
                resource.text(AttributeKind::Module),
                resource.text(AttributeKind::Parent),
                resource.text(AttributeKind::Base),
                resource.text(AttributeKind::Extension),
                path.spec_bytes(),
            );
        }
        matches_full_name(
            path.as_bytes(),
            resource.module().as_bytes(),
            resource.parent().as_bytes(),
            resource.base().as_bytes(),
            resource.extension().as_bytes(),
        )
    }
}

/// Whether `path` is the full name built from `module`, `parent`, `base` and
/// `extension`, checked part by part from the front.
#[verifier::rlimit(30)]
fn matches_full_name(path: &[u8], module: &[u8], parent: &[u8], base: &[u8], extension: &[u8]) -> (r:
    bool)
    ensures
        r == (path@ == spec_full_name(module@, parent@, base@, extension@)),
{
    let ghost goal = spec_full_name(module@, parent@, base@, extension@);
    let ghost t1 = parent_part(parent@) + (base@ + extension_part(extension@));
    let ghost t2 = base@ + extension_part(extension@);
    let ghost t3 = extension_part(extension@);
    assert(goal =~= module_part(module@) + t1);
    let mut rest: &[u8] = path;
    if module.len() > 0 {
        rest = match strip_byte(rest, SLASH) {
            Some(t) => t,
            None => {
                assert(path@ != goal) by {
                    assert(goal =~= seq![SLASH] + (module@ + (seq![SLASH] + t1)));
                }
                return false;
            },
        };
        let ghost p1 = rest@;
        rest = match strip_prefix(rest, module) {
            Some(t) => t,
            None => {
                assert(path@ != goal) by {
                    assert(goal =~= seq![SLASH] + (module@ + (seq![SLASH] + t1)));
                    lemma_cancel(path@, seq![SLASH], p1, module@ + (seq![SLASH] + t1));
                }
                return false;
            },
        };
        let ghost p2 = rest@;
        rest = match strip_byte(rest, SLASH) {
            Some(t) => t,
            None => {
                assert(path@ != goal) by {
                    assert(goal =~= seq![SLASH] + (module@ + (seq![SLASH] + t1)));
                    lemma_cancel(path@, seq![SLASH], p1, module@ + (seq![SLASH] + t1));
                    lemma_cancel(p1, module@, p2, seq![SLASH] + t1);
                }
                return false;
            },
        };
        assert(path@ =~= module_part(module@) + rest@);
    } else {
        assert(path@ =~= module_part(module@) + rest@);
    }
    proof {
        lemma_cancel(path@, module_part(module@), rest@, t1);
    }
    assert((path@ == goal) == (rest@ == t1));
    let ghost r1 = rest@;
    if parent.len() > 0 {
        rest = match strip_prefix(rest, parent) {
            Some(t) => t,
            None => {
                assert(r1 != t1) by {
                    assert(t1 =~= parent@ + (seq![SLASH] + t2));
                }
                return false;
            },
        };
        let ghost q1 = rest@;
        rest = match strip_byte(rest, SLASH) {
            Some(t) => t,
            None => {
                assert(r1 != t1) by {
                    assert(t1 =~= parent@ + (seq![SLASH] + t2));
                    lemma_cancel(r1, parent@, q1, seq![SLASH] + t2);
                }
                return false;
            },
        };
        assert(r1 =~= parent_part(parent@) + rest@);
    } else {
        assert(r1 =~= parent_part(parent@) + rest@);
    }
    proof {
        lemma_cancel(r1, parent_part(parent@), rest@, t2);
    }
    assert(t1 =~= parent_part(parent@) + t2);
    let ghost r2 = rest@;
    rest = match strip_prefix(rest, base) {
        Some(t) => t,
        None => {
            return false;
        },
    };
    proof {
        lemma_cancel(r2, base@, rest@, t3);
    }
    let ghost r3 = rest@;
    if extension.len() > 0 {
        rest = match strip_byte(rest, DOT) {
            Some(t) => t,
            None => {
                assert(r3 != t3) by {
                    assert(t3 =~= seq![DOT] + (extension@ + Seq::<u8>::empty()));
                }
                return false;
            },
        };
        let ghost e1 = rest@;
        rest = match strip_prefix(rest, extension) {
            Some(t) => t,
            None => {
                assert(r3 != t3) by {
                    assert(t3 =~= seq![DOT] + (extension@ + Seq::<u8>::empty()));
                    lemma_cancel(r3, seq![DOT], e1, extension@ + Seq::<u8>::empty());
                }
                return false;
            },
        };
        assert(r3 =~= t3 + rest@);
    } else {
        assert(r3 =~= t3 + rest@);
    }
    proof {
        lemma_cancel(r3, t3, rest@, Seq::empty());
    }
    assert(t3 + Seq::<u8>::empty() =~= t3);
    rest.len() == 0
}

/// Where `s == piece + rest`, `s == piece + tail` holds exactly when `rest == tail`.
proof fn lemma_cancel(s: Seq<u8>, piece: Seq<u8>, rest: Seq<u8>, tail: Seq<u8>)
    requires
        s == piece + rest,
    ensures
        (s == piece + tail) == (rest == tail),
{
    if s == piece + tail {
        assert(rest =~= s.subrange(piece.len() as int, s.len() as int));
        assert(tail =~= s.subrange(piece.len() as int, s.len() as int));
    }
}

/// `s` without its first byte, if that byte is `b`.
fn strip_byte(s: &[u8], b: u8) -> (r: Option<&[u8]>)
    ensures
        match r {
            Some(t) => s@ == seq![b] + t@,
            None => forall|tail: Seq<u8>| s@ != #[trigger] (seq![b] + tail),
        },
{
    if s.len() >= 1 && s[0] == b {
        let t = &s[1..s.len()];
        assert(s@ =~= seq![b] + t@);
        Some(t)
    } else {
        assert forall|tail: Seq<u8>| s@ != #[trigger] (seq![b] + tail) by {
            if s@ == seq![b] + tail {
                assert(s@[0] == b);
            }
        }
        None
    }
}

/// `s` without its prefix `prefix`, if it has that prefix.
fn strip_prefix<'b>(s: &'b [u8], prefix: &[u8]) -> (r: Option<&'b [u8]>)
    ensures
        match r {
            Some(t) => s@ == prefix@ + t@,
            None => forall|tail: Seq<u8>| s@ != #[trigger] (prefix@ + tail),
        },
{
    if has_prefix(s, prefix) {
        let t = &s[prefix.len()..s.len()];
        assert(s@ =~= prefix@ + t@);
        Some(t)
    } else {
        assert forall|tail: Seq<u8>| s@ != #[trigger] (prefix@ + tail) by {
            if s@ == prefix@ + tail {
                assert(s@.subrange(0, prefix@.len() as int) =~= prefix@);
            }
        }
        None
    }
}

/// Whether `s` starts with `prefix`.
fn has_prefix(s: &[u8], prefix: &[u8]) -> (r: bool)
    ensures
        r == (prefix@.len() <= s@.len() && s@.subrange(0, prefix@.len() as int) == prefix@),
{
    if prefix.len() > s.len() {
        return false;
    }
    let mut i: usize = 0;
    while i < prefix.len()
        invariant
            prefix@.len() <= s@.len(),
            i <= prefix@.len(),
            s@.subrange(0, i as int) == prefix@.subrange(0, i as int),
        decreases prefix@.len() - i,
    {
        if s[i] != prefix[i] {
            assert(s@.subrange(0, prefix@.len() as int)[i as int] != prefix@[i as int]);
            return false;
        }
        assert(s@.subrange(0, i + 1) =~= prefix@.subrange(0, i + 1));
        i = i + 1;
    }
    assert(prefix@.subrange(0, i as int) =~= prefix@);
    true
}

/// Relies on `std::str::from_utf8`: it succeeds exactly on valid UTF-8, and the
/// text it returns holds the same bytes.
#[verifier::external_body]
fn utf8_str(b: &[u8]) -> (r: Option<&str>)
    ensures
        r is Some <==> valid_utf8(b@),
        r matches Some(t) ==> t.spec_bytes() == b@,
{
    std::str::from_utf8(b).ok()
}

/// The bytes of `data` from `off` up to the first NUL or the end.
fn c_string_at(data: &[u8], off: u64) -> (r: &[u8])
    ensures
        r@ == spec_c_string(data@, off as int),
{
    if off >= data.len() as u64 {
        return &data[0..0];
    }
    let start = off as usize;
    let mut j: usize = start;
    while j < data.len() && data[j] != 0
        invariant
            start <= j <= data@.len(),
            spec_c_string(data@, start as int) == data@.subrange(start as int, j as int)
                + spec_c_string(data@, j as int),
        decreases data@.len() - j,
    {
        assert(data@.subrange(start as int, j + 1) =~= data@.subrange(start as int, j as int)
            + seq![data@[j as int]]);
        assert(data@.subrange(start as int, j as int) + spec_c_string(data@, j as int) =~= data@.subrange(start as int, j + 1)
            + spec_c_string(data@, j + 1));
        j = j + 1;
    }
    assert(data@.subrange(start as int, j as int) + Seq::<u8>::empty() =~= data@.subrange(start as int, j as int));
    &data[start..j]
}

/// Iteration over all slots of an archive's attribute offset table.
pub struct Resources<'a> {
    archive: &'a Archive<'a>,
    index: usize,
}

impl<'a> Resources<'a> {
    pub closed spec fn spec_archive(&self) -> &'a Archive<'a> {
        self.archive
    }

    /// The slot that `next` decodes.
    pub closed spec fn next_slot(&self) -> int {
        self.index as int
    }

    /// The resource of the next slot, or `None` past the last slot. Empty slots
    /// give resources whose attributes are all zero; a slot whose attribute
    /// stream does not decode gives the error.
    pub fn next(&mut self) -> (r: Option<Result<Resource<'a>, JImageError>>)
        ensures
            final(self).spec_archive() == old(self).spec_archive(),
            old(self).next_slot() >= old(self).spec_archive().spec_index().offsets().len() ==> r
                is None && final(self).next_slot() == old(self).next_slot(),
            old(self).next_slot() < old(self).spec_archive().spec_index().offsets().len() ==> {
                &&& final(self).next_slot() == old(self).next_slot() + 1
                &&& match r {
                    Some(Ok(res)) => res.spec_archive() == old(self).spec_archive() && old(self).spec_archive().decoded_slot(old(self).next_slot()) == Ok::<
                        Seq<u64>,
                        JImageError,
                    >(res.slots()),
                    Some(Err(e)) => old(self).spec_archive().decoded_slot(old(self).next_slot())
                        == Err::<Seq<u64>, JImageError>(e),
                    None => false,
                }
            },
    {
        if self.index >= self.archive.index.attribute_offsets.len() {
            return None;
        }
        let i = self.index;
        self.index = self.index + 1;
        match self.archive.decode_slot(i) {
            Ok(attributes) => Some(Ok(Resource { attributes, archive: self.archive })),
            Err(e) => Some(Err(e)),
        }
    }
}

/// One resource of an archive: its seven attribute slots, read against the
/// archive's string pool and payload bytes.
pub struct Resource<'a> {
    attributes: [u64; 7],
    archive: &'a Archive<'a>,
}

impl<'a> Resource<'a> {
    pub closed spec fn slots(&self) -> Seq<u64> {
        self.attributes@
    }

    pub closed spec fn spec_archive(&self) -> &'a Archive<'a> {
        self.archive
    }

    /// The text of the string attribute of `kind`; empty when absent.
    pub open spec fn text(&self, kind: AttributeKind) -> Seq<u8> {
        self.spec_archive().text_of(self.slots(), kind)
    }

    pub open spec fn spec_full_name(&self) -> Seq<u8> {
        self.spec_archive().full_name_of(self.slots())
    }

    pub fn module(&self) -> (r: &'a str)
        ensures
            r.spec_bytes() == self.text(AttributeKind::Module),
    {
        self.string_at(AttributeKind::Module)
    }

    pub fn parent(&self) -> (r: &'a str)
        ensures
            r.spec_bytes() == self.text(AttributeKind::Parent),
    {
        self.string_at(AttributeKind::Parent)
    }

    pub fn base(&self) -> (r: &'a str)
        ensures
            r.spec_bytes() == self.text(AttributeKind::Base),
    {
        self.string_at(AttributeKind::Base)
    }

    pub fn extension(&self) -> (r: &'a str)
        ensures
            r.spec_bytes() == self.text(AttributeKind::Extension),
    {
        self.string_at(AttributeKind::Extension)
    }

    /// The `Offset` attribute: where the payload starts, relative to the end of the index.
    pub fn offset(&self) -> (r: usize)
        ensures
            r == self.slots()[AttributeKind::Offset.spec_slot()] as usize,
    {
        self.attributes[AttributeKind::Offset.slot()] as usize
    }

    /// The payload: `Uncompressed` bytes from `Offset` past the end of the
    /// index; `None` where that range runs past the archive's bytes.
    pub fn bytes(&self) -> (r: Option<&'a [u8]>)
        ensures
            ({
                let start = self.spec_archive().data_start() + self.slots()[4];
                let end = start + self.slots()[6];
                &&& r is Some <==> end <= self.spec_archive().bytes_read().len()
                &&& r matches Some(b) ==> b@ == self.spec_archive().bytes_read().subrange(
                    start,
                    end,
                )
            }),
    {
        let buf = self.archive.buf;
        let start = self.archive.resource_data_start;
        let offset = self.attributes[AttributeKind::Offset.slot()];
        let size = self.attributes[AttributeKind::Uncompressed.slot()];
        if start > buf.len() {
            return None;
        }
        let room = (buf.len() - start) as u64;
        if offset > room || size > room - offset {
            return None;
        }
        let begin = start + offset as usize;
        Some(&buf[begin..begin + size as usize])
    }

    /// The path that names this resource: `/module/`, `parent/`, the base and
    /// `.extension`, each part only where its attribute is present.
    #[verifier::rlimit(30)]
    pub fn full_name(&self) -> (r: String)
        ensures
            encode_utf8(r@) == self.spec_full_name(),
    {
        let mut s = String::new();
        proof {
            reveal_strlit("/");
            reveal_strlit(".");
            lemma_encode_ascii_char('/');
            lemma_encode_ascii_char('.');
            assert('/' as u8 == SLASH);
            assert('.' as u8 == DOT);
            assert("/"@ =~= seq!['/']);
            assert("."@ =~= seq!['.']);
            assert(encode_utf8("/"@) == seq![SLASH]);
            assert(encode_utf8("."@) == seq![DOT]);
            assert(encode_utf8(s@) == Seq::<u8>::empty());
        }
        let ghost m = self.text(AttributeKind::Module);
        let ghost pa = self.text(AttributeKind::Parent);
        let ghost b = self.text(AttributeKind::Base);
        let ghost e = self.text(AttributeKind::Extension);
        if let Some(module) = self.try_string(AttributeKind::Module) {
            let ghost s0 = s@;
            s.append("/");
            s.append(module);
            s.append("/");
            proof {
                lemma_encode_concat(s0 + "/"@ + module@, "/"@);
                lemma_encode_concat(s0 + "/"@, module@);
                lemma_encode_concat(s0, "/"@);
                assert(encode_utf8(module@) == m);
                assert(encode_utf8(s@) =~= module_part(m));
            }
        }
        assert(encode_utf8(s@) == module_part(m));
        if let Some(parent) = self.try_string(AttributeKind::Parent) {
            let ghost s0 = s@;
            s.append(parent);
            s.append("/");
            proof {
                lemma_encode_concat(s0 + parent@, "/"@);
                lemma_encode_concat(s0, parent@);
            }
        }
        assert(encode_utf8(s@) =~= module_part(m) + parent_part(pa));
        if let Some(base) = self.try_string(AttributeKind::Base) {
            let ghost s0 = s@;
            s.append(base);
            proof {
                lemma_encode_concat(s0, base@);
            }
        }
        assert(encode_utf8(s@) =~= module_part(m) + parent_part(pa) + b);
        if let Some(extension) = self.try_string(AttributeKind::Extension) {
            let ghost s0 = s@;
            s.append(".");
            s.append(extension);
            proof {
                lemma_encode_concat(s0 + "."@, extension@);
                lemma_encode_concat(s0, "."@);
            }
        }
        assert(encode_utf8(s@) =~= module_part(m) + parent_part(pa) + b + extension_part(e));
        s
    }

    fn string_at(&self, kind: AttributeKind) -> (r: &'a str)
        ensures
            r.spec_bytes() == self.text(kind),
    {
        match self.try_string(kind) {
            Some(t) => t,
            None => {
                proof {
                    reveal_strlit("");
                }
                ""
            },
        }
    }

    fn attribute_offset(&self, kind: AttributeKind) -> (r: u64)
        ensures
            r == self.slots()[kind.spec_slot()],
    {
        self.attributes[kind.slot()]
    }

    /// The text of the string attribute of `kind`, if present.
    fn try_string(&self, kind: AttributeKind) -> (r: Option<&'a str>)
        ensures
            r is Some <==> self.text(kind).len() > 0,
            r matches Some(t) ==> t.spec_bytes() == self.text(kind),
    {
        let offset = self.attribute_offset(kind);
        let bytes = c_string_at(self.archive.index.strings_data.as_slice(), offset);
        if bytes.len() == 0 {
            return None;
        }
        utf8_str(bytes)
    }
}

/// The UTF-8 encoding of a concatenation is the concatenation of the encodings.
proof fn lemma_encode_concat(a: Seq<char>, b: Seq<char>)
    ensures
        encode_utf8(a + b) == encode_utf8(a) + encode_utf8(b),
    decreases a.len(),
{
    if a.len() == 0 {
        assert(a + b =~= b);
        assert(encode_utf8(a) + encode_utf8(b) =~= encode_utf8(b));
    } else {
        assert((a + b).drop_first() =~= a.drop_first() + b);
        lemma_encode_concat(a.drop_first(), b);
        assert((a + b)[0] == a[0]);
        assert(encode_utf8(a + b) =~= encode_utf8(a) + encode_utf8(b));
    }
}

/// An ASCII character encodes as the one byte of its code.
proof fn lemma_encode_ascii_char(c: char)
    requires
        c <= '\u{7f}',
    ensures
        encode_utf8(seq![c]) == seq![c as u8],
{
    assert(is_ascii_chars(seq![c]));
    is_ascii_chars_encode_utf8(seq![c]);
    assert(encode_utf8(seq![c]) =~= seq![c as u8]);
}

/// The string hash never has its sign bit set: `hash(s, HASH_MULTIPLIER) >= 0`
/// for every byte string `s` (and every other seed).
pub proof fn lemma_hash_non_negative(s: Seq<u8>, seed: i32)
    ensures
        spec_hash(s, seed) >= 0,
{
    let u = spec_hash_state(s, unsigned32(seed));
    assert((u & 0x7fff_ffff) as i32 >= 0) by (bit_vector);
}

/// A path whose first-round bucket holds 0 in the redirect table is absent:
/// the lookup picks no slot and finds no resource.
pub proof fn lemma_empty_bucket_absent(a: &Archive, p: Seq<u8>)
    requires
        a.spec_index().redirects().len() > 0,
        a.spec_index().redirects()[spec_hash(p, HASH_MULTIPLIER) as int
            % a.spec_index().redirects().len() as int] == 0,
    ensures
        a.lookup_slot(p) is None,
        a.spec_by_name(p) is None,
{
}

/// Every non-empty resource listed by iteration is found again by its full
/// name, with the same attributes, wherever the archive's perfect hash sends
/// that name to the resource's own slot (as the archive writer guarantees).
pub proof fn lemma_listed_resource_found(a: &Archive, i: int, slots: Seq<u64>)
    requires
        0 <= i < a.spec_index().offsets().len(),
        a.decoded_slot(i) == Ok::<Seq<u64>, JImageError>(slots),
        a.full_name_of(slots).len() > 0,
        a.lookup_slot(a.full_name_of(slots)) == Some(i),
    ensures
        a.spec_by_name(a.full_name_of(slots)) == Some(slots),
{
}

/// The decimal digits of `n`, most significant first.
pub open spec fn spec_decimal(n: nat) -> Seq<char>
    decreases n,
{
    if n < 10 {
        seq![digit_char(n)]
    } else {
        spec_decimal(n / 10) + seq![digit_char(n % 10)]
    }
}

pub open spec fn digit_char(d: nat) -> char {
    if d == 0 {
        '0'
    } else if d == 1 {
        '1'
    } else if d == 2 {
        '2'
    } else if d == 3 {
        '3'
    } else if d == 4 {
        '4'
    } else if d == 5 {
        '5'
    } else if d == 6 {
        '6'
    } else if d == 7 {
        '7'
    } else if d == 8 {
        '8'
    } else {
        '9'
    }
}

fn digit_str(d: u64) -> (r: &'static str)
    requires
        d < 10,
    ensures
        r@ == seq![digit_char(d as nat)],
{
    proof {
        reveal_strlit("0");
        reveal_strlit("1");
        reveal_strlit("2");
        reveal_strlit("3");
        reveal_strlit("4");
        reveal_strlit("5");
        reveal_strlit("6");
        reveal_strlit("7");
        reveal_strlit("8");
        reveal_strlit("9");
    }
    let r = if d == 0 {
        "0"
    } else if d == 1 {
        "1"
    } else if d == 2 {
        "2"
    } else if d == 3 {
        "3"
    } else if d == 4 {
        "4"
    } else if d == 5 {
        "5"
    } else if d == 6 {
        "6"
    } else if d == 7 {
        "7"
    } else if d == 8 {
        "8"
    } else {
        "9"
    };
    assert(r@ =~= seq![digit_char(d as nat)]);
    r
}

/// Appends the decimal digits of `n` to `s`.
fn push_decimal(s: &mut String, n: u64)
    ensures
        final(s)@ == old(s)@ + spec_decimal(n as nat),
    decreases n,
{
    if n >= 10 {
        push_decimal(s, n / 10);
    }
    s.append(digit_str(n % 10));
    assert(final(s)@ =~= old(s)@ + spec_decimal(n as nat));
}

/// One line of the header text: the label, the value in decimal, a newline.
pub open spec fn info_line(label: Seq<char>, value: nat) -> Seq<char> {
    label + spec_decimal(value) + "\n"@
}

/// Appends one line of the header text.
fn push_line(s: &mut String, label: &str, value: u64)
    ensures
        final(s)@ == old(s)@ + info_line(label@, value as nat),
{
    s.append(label);
    push_decimal(s, value);
    s.append("\n");
    assert(final(s)@ =~= old(s)@ + info_line(label@, value as nat));
}

impl Header {
    /// The header as the platform's `jimage info` tool prints it.
    pub open spec fn spec_info_text(&self) -> Seq<char> {
        info_line(" Major Version:  "@, self.version.0 as nat) + info_line(
            " Minor Version:  "@,
            self.version.1 as nat,
        ) + info_line(" Flags:          "@, self.flags as nat) + info_line(
            " Resource Count: "@,
            self.resource_count as nat,
        ) + info_line(" Table Length:   "@, self.table_length as nat) + info_line(
            " Offsets Size:   "@,
            4 * self.table_length as nat,
        ) + info_line(" Redirects Size: "@, 4 * self.table_length as nat) + info_line(
            " Locations Size: "@,
            self.attributes_size as nat,
        ) + info_line(" Strings Size:   "@, self.strings_size as nat) + info_line(
            " Index Size:     "@,
            self.spec_index_size() as nat,
        )
    }

    /// The header as the platform's `jimage info` tool prints it: one labelled
    /// decimal value per line.
    pub fn info_text(&self) -> (r: String)
        ensures
            r@ == self.spec_info_text(),
    {
        let tables: u64 = 4 * self.table_length as u64;
        let index_size: u64 = HEADER_SIZE as u64 + 2 * tables + self.attributes_size as u64
            + self.strings_size as u64;
        let mut s = String::new();
        push_line(&mut s, " Major Version:  ", self.version.0 as u64);
        push_line(&mut s, " Minor Version:  ", self.version.1 as u64);
        push_line(&mut s, " Flags:          ", self.flags as u64);
        push_line(&mut s, " Resource Count: ", self.resource_count as u64);
        push_line(&mut s, " Table Length:   ", self.table_length as u64);
        push_line(&mut s, " Offsets Size:   ", tables);
        push_line(&mut s, " Redirects Size: ", tables);
        push_line(&mut s, " Locations Size: ", self.attributes_size as u64);
        push_line(&mut s, " Strings Size:   ", self.strings_size as u64);
        push_line(&mut s, " Index Size:     ", index_size);
        assert(s@ =~= self.spec_info_text());
        s
    }
}

/// Path verification, step one: where the module is present, `/module/` is
/// required and removed.
pub open spec fn strip_module(m: Seq<u8>, p: Seq<u8>) -> Option<Seq<u8>> {
    if m.len() == 0 {
        Some(p)
    } else if p.len() >= m.len() + 2 && p[0] == SLASH && p.subrange(1, 1 + m.len() as int) == m
        && p[1 + m.len() as int] == SLASH {
        Some(p.subrange(2 + m.len() as int, p.len() as int))
    } else {
        None
    }
}

/// Step two: where the parent is present, `parent/` is required and removed.
pub open spec fn strip_parent(pa: Seq<u8>, p: Seq<u8>) -> Option<Seq<u8>> {
    if pa.len() == 0 {
        Some(p)
    } else if p.len() >= pa.len() + 1 && p.subrange(0, pa.len() as int) == pa && p[pa.len() as int]
        == SLASH {
        Some(p.subrange(pa.len() as int + 1, p.len() as int))
    } else {
        None
    }
}

/// Step three: the base is required and removed.
pub open spec fn strip_base(b: Seq<u8>, p: Seq<u8>) -> Option<Seq<u8>> {
    if p.len() >= b.len() && p.subrange(0, b.len() as int) == b {
        Some(p.subrange(b.len() as int, p.len() as int))
    } else {
        None
    }
}

/// Step four: where the extension is present, `.extension` is required and removed.
pub open spec fn strip_extension(e: Seq<u8>, p: Seq<u8>) -> Option<Seq<u8>> {
    if e.len() == 0 {
        Some(p)
    } else if p.len() >= e.len() + 1 && p[0] == DOT && p.subrange(1, 1 + e.len() as int) == e {
        Some(p.subrange(1 + e.len() as int, p.len() as int))
    } else {
        None
    }
}

/// Path verification as the four steps: each must succeed, and nothing may remain.
pub open spec fn spec_path_verifies(m: Seq<u8>, pa: Seq<u8>, b: Seq<u8>, e: Seq<u8>, p: Seq<u8>) -> bool {
    match strip_module(m, p) {
        None => false,
        Some(p1) => match strip_parent(pa, p1) {
            None => false,
            Some(p2) => match strip_base(b, p2) {
                None => false,
                Some(p3) => match strip_extension(e, p3) {
                    None => false,
                    Some(p4) => p4.len() == 0,
                },
            },
        },
    }
}

/// A step that removes `part` from the front of `p`: it succeeds with the rest
/// exactly when `p` starts with `part`.
proof fn lemma_step(part: Seq<u8>, p: Seq<u8>, step: Option<Seq<u8>>)
    requires
        step matches Some(r) ==> p =~= part + r,
        step is None ==> !(p.len() >= part.len() && p.subrange(0, part.len() as int) =~= part),
    ensures
        forall|t: Seq<u8>| #[trigger] (part + t) == p <==> step == Some(t),
{
    assert forall|t: Seq<u8>| #[trigger] (part + t) == p <==> step == Some(t) by {
        if part + t == p {
            assert(p.subrange(0, part.len() as int) =~= part);
            if let Some(r) = step {
                assert(r =~= p.subrange(part.len() as int, p.len() as int));
                assert(t =~= p.subrange(part.len() as int, p.len() as int));
            }
        }
    }
}

proof fn lemma_strip_module(m: Seq<u8>, p: Seq<u8>)
    ensures
        forall|t: Seq<u8>| #[trigger] (module_part(m) + t) == p <==> strip_module(m, p) == Some(t),
{
    if m.len() > 0 && p.len() >= m.len() + 2 && p.subrange(0, m.len() as int + 2) =~= module_part(m) {
        assert(p[0] == module_part(m)[0]);
        assert forall|k: int| 0 <= k < m.len() implies p[1 + k] == m[k] by {
            assert(p.subrange(0, m.len() as int + 2)[1 + k] == module_part(m)[1 + k]);
        }
        assert(p.subrange(1, 1 + m.len() as int) =~= m);
        assert(p[1 + m.len() as int] == module_part(m)[1 + m.len() as int]);
    }
    lemma_step(module_part(m), p, strip_module(m, p));
}

proof fn lemma_strip_parent(pa: Seq<u8>, p: Seq<u8>)
    ensures
        forall|t: Seq<u8>| #[trigger] (parent_part(pa) + t) == p <==> strip_parent(pa, p) == Some(t),
{
    if pa.len() > 0 && p.len() >= pa.len() + 1 && p.subrange(0, pa.len() as int + 1) =~= parent_part(pa) {
        assert forall|k: int| 0 <= k < pa.len() implies p[k] == pa[k] by {
            assert(p.subrange(0, pa.len() as int + 1)[k] == parent_part(pa)[k]);
        }
        assert(p.subrange(0, pa.len() as int) =~= pa);
        assert(p[pa.len() as int] == parent_part(pa)[pa.len() as int]);
    }
    lemma_step(parent_part(pa), p, strip_parent(pa, p));
}

proof fn lemma_strip_extension(e: Seq<u8>, p: Seq<u8>)
    ensures
        forall|t: Seq<u8>| #[trigger] (extension_part(e) + t) == p <==> strip_extension(e, p) == Some(t),
{
    if e.len() > 0 && p.len() >= e.len() + 1 && p.subrange(0, e.len() as int + 1) =~= extension_part(e) {
        assert(p[0] == extension_part(e)[0]);
        assert forall|k: int| 0 <= k < e.len() implies p[1 + k] == e[k] by {
            assert(p.subrange(0, e.len() as int + 1)[1 + k] == extension_part(e)[1 + k]);
        }
        assert(p.subrange(1, 1 + e.len() as int) =~= e);
    }
    lemma_step(extension_part(e), p, strip_extension(e, p));
}

/// Path verification accepts exactly the full name: the four steps succeed on
/// `p` if and only if `p` is the name rebuilt from the same parts.
#[verifier::rlimit(30)]
pub proof fn lemma_verification_is_full_name(
    m: Seq<u8>,
    pa: Seq<u8>,
    b: Seq<u8>,
    e: Seq<u8>,
    p: Seq<u8>,
)
    ensures
        spec_path_verifies(m, pa, b, e, p) == (p == spec_full_name(m, pa, b, e)),
{
    let t2 = b + extension_part(e);
    let t1 = parent_part(pa) + t2;
    let empty = Seq::<u8>::empty();
    assert(spec_full_name(m, pa, b, e) =~= module_part(m) + t1);
    assert(extension_part(e) =~= extension_part(e) + empty);
    lemma_strip_module(m, p);
    if let Some(p1) = strip_module(m, p) {
        lemma_strip_parent(pa, p1);
        if let Some(p2) = strip_parent(pa, p1) {
            lemma_step(b, p2, strip_base(b, p2));
            if let Some(p3) = strip_base(b, p2) {
                lemma_strip_extension(e, p3);
                if let Some(p4) = strip_extension(e, p3) {
                    if p4.len() == 0 {
                        assert(p4 =~= empty);
                    }
                }
            }
        }
    }
}

/// The rebuilt full name passes path verification for any parts.
pub proof fn lemma_full_name_verifies(m: Seq<u8>, pa: Seq<u8>, b: Seq<u8>, e: Seq<u8>)
    ensures
        spec_path_verifies(m, pa, b, e, spec_full_name(m, pa, b, e)),
{
    lemma_verification_is_full_name(m, pa, b, e, spec_full_name(m, pa, b, e));
}

} // verus!
