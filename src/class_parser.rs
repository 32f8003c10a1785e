//! The class file format, stated as spec functions over the input bytes, and
//! a big-endian parser proved to decode exactly what they describe.

use crate::bytes::{
    read_u16_at, read_u32_at, signed32, signed64, spec_u16, spec_u32, to_signed32, to_signed64,
    Endian,
};
use crate::class_file::{
    Attribute, AttributeView, Attributes, ClassFile, ClassFileError, ClassFileView, CodeAttribute,
    CodeView, ExceptionTableEntry, FieldInfo, MemberView, MethodInfo,
};
use crate::constant_pool::{
    spec_double_value, spec_float_value, wide_slots_paired, ClassInfo, ConstantPool, CpEntry,
    CpInfo, FloatValue, InvokeDynamicInfo, MethodHandleInfo, MethodTypeInfo, NameAndTypeInfo,
    RefInfo,
};
use vstd::prelude::*;
use vstd::utf8::{decode_utf8, valid_utf8};

verus! {

/// The magic number that opens every class file.
pub const CLASS_MAGIC: u32 = 0xCAFE_BABE;

/// The text that lossy UTF-8 decoding gives for `b`: invalid sequences become U+FFFD.
pub uninterp spec fn lossy_utf8(b: Seq<u8>) -> Seq<char>;

/// Relies on `String::from_utf8_lossy`: the text depends on the bytes alone,
/// and valid UTF-8 decodes unchanged.
#[verifier::external_body]
fn utf8_lossy(b: &[u8]) -> (r: String)
    ensures
        r@ == lossy_utf8(b@),
        valid_utf8(b@) ==> r@ == decode_utf8(b@),
{
    String::from_utf8_lossy(b).into_owned()
}

pub open spec fn be16(s: Seq<u8>, p: int) -> u16 {
    spec_u16(s, p, Endian::Big)
}

pub open spec fn be32(s: Seq<u8>, p: int) -> u32 {
    spec_u32(s, p, Endian::Big)
}

/// The 64 bits stored big-endian at `s[p..p + 8]`.
pub open spec fn be64(s: Seq<u8>, p: int) -> u64 {
    (be32(s, p) as int * 0x1_0000_0000 + be32(s, p + 4) as int) as u64
}

/// Bytes that follow the tag of a constant pool entry of fixed size; 0 for
/// `Utf8` (whose size is in its data) and for unknown tags.
pub open spec fn cp_payload_size(tag: u8) -> int {
    if tag == 3 || tag == 4 || tag == 9 || tag == 10 || tag == 11 || tag == 12 || tag == 18 {
        4
    } else if tag == 5 || tag == 6 {
        8
    } else if tag == 7 || tag == 8 || tag == 16 {
        2
    } else if tag == 15 {
        3
    } else {
        0
    }
}

/// The entry of fixed size with tag `tag` whose payload starts at `q`.
#[verifier::opaque]
pub open spec fn cp_fixed_entry(s: Seq<u8>, q: int, tag: u8) -> CpEntry {
    let r = RefInfo { class_index: be16(s, q), name_and_type_index: be16(s, q + 2) };
    if tag == 3 {
        CpEntry::Integer(signed32(be32(s, q)))
    } else if tag == 4 {
        CpEntry::Float(spec_float_value(be32(s, q)))
    } else if tag == 5 {
        CpEntry::Long(signed64(be64(s, q)))
    } else if tag == 6 {
        CpEntry::Double(spec_double_value(be64(s, q)))
    } else if tag == 7 {
        CpEntry::Class(ClassInfo { name_index: be16(s, q) })
    } else if tag == 8 {
        CpEntry::String { string_index: be16(s, q) }
    } else if tag == 9 {
        CpEntry::FieldRef(r)
    } else if tag == 10 {
        CpEntry::MethodRef(r)
    } else if tag == 11 {
        CpEntry::InterfaceMethodRef(r)
    } else if tag == 12 {
        CpEntry::NameAndType(
            NameAndTypeInfo { name_index: be16(s, q), descriptor_index: be16(s, q + 2) },
        )
    } else if tag == 15 {
        CpEntry::MethodHandle(
            MethodHandleInfo { reference_kind: s[q], reference_index: be16(s, q + 1) },
        )
    } else if tag == 16 {
        CpEntry::MethodType(MethodTypeInfo { descriptor_index: be16(s, q) })
    } else {
        CpEntry::InvokeDynamic(
            InvokeDynamicInfo {
                bootstrap_method_attr_index: be16(s, q),
                name_and_type_index: be16(s, q + 2),
            },
        )
    }
}

/// One constant pool entry at `p` and the position after it.
pub open spec fn sp_cp_info(s: Seq<u8>, p: int) -> Result<(CpEntry, int), ClassFileError> {
    if !(0 <= p < s.len()) {
        Err(ClassFileError::IOError)
    } else {
        let tag = s[p];
        let q = p + 1;
        if tag == 1 {
            if q + 2 > s.len() {
                Err(ClassFileError::IOError)
            } else {
                let n = be16(s, q) as int;
                if q + 2 + n > s.len() {
                    Err(ClassFileError::IOError)
                } else {
                    Ok((CpEntry::Utf8(lossy_utf8(s.subrange(q + 2, q + 2 + n))), q + 2 + n))
                }
            }
        } else if cp_payload_size(tag) == 0 {
            Err(ClassFileError::InvalidCpInfoTag(tag))
        } else if q + cp_payload_size(tag) > s.len() {
            Err(ClassFileError::IOError)
        } else {
            Ok((cp_fixed_entry(s, q, tag), q + cp_payload_size(tag)))
        }
    }
}

/// Entries read at `p` until `remaining` slots are filled, appended to `acc`;
/// a `Long` or `Double` fills two slots, the second `Unusable`. A `Long` or
/// `Double` read where only one slot is left contradicts the pool's `count`.
pub open spec fn sp_cp_entries(
    s: Seq<u8>,
    p: int,
    remaining: int,
    acc: Seq<CpEntry>,
    count: u16,
) -> Result<(Seq<CpEntry>, int), ClassFileError>
    decreases remaining,
{
    if remaining <= 0 {
        Ok((acc, p))
    } else {
        match sp_cp_info(s, p) {
            Err(e) => Err(e),
            Ok((e, q)) => if e.is_wide() {
                if remaining < 2 {
                    Err(ClassFileError::InvalidConstantPoolCount(count))
                } else {
                    sp_cp_entries(s, q, remaining - 2, acc.push(e).push(CpEntry::Unusable), count)
                }
            } else {
                sp_cp_entries(s, q, remaining - 1, acc.push(e), count)
            },
        }
    }
}

/// The constant pool at `p`: a count one greater than its slots (so at least
/// 1), then the entries.
pub open spec fn sp_constant_pool(s: Seq<u8>, p: int) -> Result<(Seq<CpEntry>, int), ClassFileError> {
    if 0 <= p && p + 2 <= s.len() {
        if be16(s, p) == 0 {
            Err(ClassFileError::InvalidConstantPoolCount(0))
        } else {
            sp_cp_entries(s, p + 2, be16(s, p) - 1, Seq::empty(), be16(s, p))
        }
    } else {
        Err(ClassFileError::IOError)
    }
}

/// One attribute at `p`: name index, 32-bit length, body.
pub open spec fn sp_attribute(s: Seq<u8>, p: int) -> Result<(AttributeView, int), ClassFileError> {
    if 0 <= p && p + 6 <= s.len() && p + 6 + be32(s, p + 2) <= s.len() {
        let n = be32(s, p + 2) as int;
        Ok((AttributeView { name_index: be16(s, p), info: s.subrange(p + 6, p + 6 + n) }, p + 6 + n))
    } else {
        Err(ClassFileError::IOError)
    }
}

/// `n` attributes at `p`, appended to `acc`.
pub open spec fn sp_attributes_from(s: Seq<u8>, p: int, n: int, acc: Seq<AttributeView>) -> Result<
    (Seq<AttributeView>, int),
    ClassFileError,
>
    decreases n,
{
    if n <= 0 {
        Ok((acc, p))
    } else {
        match sp_attribute(s, p) {
            Err(e) => Err(e),
            Ok((a, q)) => sp_attributes_from(s, q, n - 1, acc.push(a)),
        }
    }
}

/// A 16-bit count at `p` and that many attributes.
pub open spec fn sp_attributes(s: Seq<u8>, p: int) -> Result<(Seq<AttributeView>, int), ClassFileError> {
    if 0 <= p && p + 2 <= s.len() {
        sp_attributes_from(s, p + 2, be16(s, p) as int, Seq::empty())
    } else {
        Err(ClassFileError::IOError)
    }
}

/// A field or method at `p`.
pub open spec fn sp_member(s: Seq<u8>, p: int) -> Result<(MemberView, int), ClassFileError> {
    if 0 <= p && p + 6 <= s.len() {
        match sp_attributes(s, p + 6) {
            Err(e) => Err(e),
            Ok((attrs, q)) => Ok(
                (
                    MemberView {
                        access_flags: be16(s, p),
                        name_index: be16(s, p + 2),
                        descriptor_index: be16(s, p + 4),
                        attributes: attrs,
                    },
                    q,
                ),
            ),
        }
    } else {
        Err(ClassFileError::IOError)
    }
}

/// `n` fields or methods at `p`, appended to `acc`.
pub open spec fn sp_members_from(s: Seq<u8>, p: int, n: int, acc: Seq<MemberView>) -> Result<
    (Seq<MemberView>, int),
    ClassFileError,
>
    decreases n,
{
    if n <= 0 {
        Ok((acc, p))
    } else {
        match sp_member(s, p) {
            Err(e) => Err(e),
            Ok((m, q)) => sp_members_from(s, q, n - 1, acc.push(m)),
        }
    }
}

/// A 16-bit count at `p` and that many fields or methods.
pub open spec fn sp_members(s: Seq<u8>, p: int) -> Result<(Seq<MemberView>, int), ClassFileError> {
    if 0 <= p && p + 2 <= s.len() {
        sp_members_from(s, p + 2, be16(s, p) as int, Seq::empty())
    } else {
        Err(ClassFileError::IOError)
    }
}

/// A 16-bit count at `p` and that many 16-bit indices.
pub open spec fn sp_u16_list(s: Seq<u8>, p: int) -> Result<(Seq<u16>, int), ClassFileError> {
    if 0 <= p && p + 2 <= s.len() && p + 2 + 2 * be16(s, p) <= s.len() {
        let n = be16(s, p) as int;
        Ok((Seq::new(n as nat, |i: int| be16(s, p + 2 + 2 * i)), p + 2 + 2 * n))
    } else {
        Err(ClassFileError::IOError)
    }
}

/// The class file at `p`, and the position after it.
pub open spec fn sp_class_file(s: Seq<u8>, p: int) -> Result<(ClassFileView, int), ClassFileError> {
    if !(0 <= p && p + 4 <= s.len()) {
        Err(ClassFileError::IOError)
    } else if be32(s, p) != CLASS_MAGIC {
        Err(ClassFileError::InvalidMagicIdentifier(be32(s, p)))
    } else if p + 8 > s.len() {
        Err(ClassFileError::IOError)
    } else {
        match sp_constant_pool(s, p + 8) {
            Err(e) => Err(e),
            Ok((pool, p1)) => sp_class_rest(s, p1, pool),
        }
    }
}

/// What follows the constant pool `pool` at `p1`: access flags, this and super
/// class indices, interfaces, fields, methods and attributes.
pub open spec fn sp_class_rest(s: Seq<u8>, p1: int, pool: Seq<CpEntry>) -> Result<
    (ClassFileView, int),
    ClassFileError,
> {
    if !(0 <= p1 && p1 + 6 <= s.len()) {
        Err(ClassFileError::IOError)
    } else {
        match sp_u16_list(s, p1 + 6) {
            Err(e) => Err(e),
            Ok((interfaces, p2)) => match sp_members(s, p2) {
                Err(e) => Err(e),
                Ok((fields, p3)) => match sp_members(s, p3) {
                    Err(e) => Err(e),
                    Ok((methods, p4)) => match sp_attributes(s, p4) {
                        Err(e) => Err(e),
                        Ok((attributes, p5)) => Ok(
                            (
                                ClassFileView {
                                    constant_pool: pool,
                                    access_flags: be16(s, p1),
                                    this_class: be16(s, p1 + 2),
                                    super_class: be16(s, p1 + 4),
                                    interfaces,
                                    fields,
                                    methods,
                                    attributes,
                                },
                                p5,
                            ),
                        ),
                    },
                },
            },
        }
    }
}

/// The exception table entry at `p`.
pub open spec fn exception_entry_at(s: Seq<u8>, p: int) -> ExceptionTableEntry {
    ExceptionTableEntry {
        start_pc: be16(s, p),
        end_pc: be16(s, p + 2),
        handler_pc: be16(s, p + 4),
        catch_type: be16(s, p + 6),
    }
}

/// The body of a `Code` attribute at `p`.
pub open spec fn sp_code(s: Seq<u8>, p: int) -> Result<(CodeView, int), ClassFileError> {
    if !(0 <= p && p + 8 <= s.len() && p + 8 + be32(s, p + 4) + 2 <= s.len()) {
        Err(ClassFileError::IOError)
    } else {
        let c = p + 8 + be32(s, p + 4);
        let n = be16(s, c) as int;
        if c + 2 + 8 * n > s.len() {
            Err(ClassFileError::IOError)
        } else {
            match sp_attributes(s, c + 2 + 8 * n) {
                Err(e) => Err(e),
                Ok((attributes, q)) => Ok(
                    (
                        CodeView {
                            max_stack: be16(s, p),
                            max_locals: be16(s, p + 2),
                            code: s.subrange(p + 8, c),
                            exception_table: Seq::new(
                                n as nat,
                                |i: int| exception_entry_at(s, c + 2 + 8 * i),
                            ),
                            attributes,
                        },
                        q,
                    ),
                ),
            }
        }
    }
}

/// A big-endian cursor over the bytes of a class file.
pub struct Parser<'a> {
    buf: &'a [u8],
    pos: usize,
}

/// The size of the fixed payload of tag `tag`.
fn payload_size(tag: u8) -> (r: usize)
    ensures
        r == cp_payload_size(tag),
{
    if tag == 3 || tag == 4 || tag == 9 || tag == 10 || tag == 11 || tag == 12 || tag == 18 {
        4
    } else if tag == 5 || tag == 6 {
        8
    } else if tag == 7 || tag == 8 || tag == 16 {
        2
    } else if tag == 15 {
        3
    } else {
        0
    }
}

fn read_u64_at(s: &[u8], p: usize) -> (r: u64)
    requires
        p + 8 <= s@.len(),
    ensures
        r == be64(s@, p as int),
{
    let len = s.len();
    assert(p + 8 <= len);
    let hi = read_u32_at(s, p, Endian::Big);
    let lo = read_u32_at(s, p + 4, Endian::Big);
    hi as u64 * 0x1_0000_0000 + lo as u64
}

impl CpInfo {
    /// Whether this entry takes two slots of the pool.
    pub fn is_wide(&self) -> (r: bool)
        ensures
            r == self@.is_wide(),
    {
        match self {
            CpInfo::Long(_) | CpInfo::Double(_) => true,
            _ => false,
        }
    }
}

impl<'a> Parser<'a> {
    /// The bytes being read.
    pub closed spec fn input(&self) -> Seq<u8> {
        self.buf@
    }

    /// The position of the next byte to read.
    pub closed spec fn position(&self) -> int {
        self.pos as int
    }

    pub fn new(buf: &'a [u8]) -> (r: Parser<'a>)
        ensures
            r.input() == buf@,
            r.position() == 0,
    {
        Parser { buf, pos: 0 }
    }

    fn read_u8(&mut self) -> (r: Result<u8, ClassFileError>)
        ensures
            final(self).input() == old(self).input(),
            match r {
                Ok(v) => 0 <= old(self).position() < old(self).input().len() && v == old(self).input()[old(self).position()] && final(self).position() == old(self).position()
                    + 1,
                Err(e) => e is IOError && !(0 <= old(self).position() < old(self).input().len()),
            },
    {
        if self.pos < self.buf.len() {
            let v = self.buf[self.pos];
            self.pos = self.pos + 1;
            Ok(v)
        } else {
            Err(ClassFileError::IOError)
        }
    }

    fn read_u16(&mut self) -> (r: Result<u16, ClassFileError>)
        ensures
            final(self).input() == old(self).input(),
            match r {
                Ok(v) => 0 <= old(self).position() && old(self).position() + 2 <= old(self).input().len() && v == be16(old(self).input(), old(self).position()) && final(self).position() == old(self).position() + 2,
                Err(e) => e is IOError && !(0 <= old(self).position() && old(self).position() + 2
                    <= old(self).input().len()),
            },
    {
        if self.pos < self.buf.len() && self.buf.len() - self.pos >= 2 {
            let v = read_u16_at(self.buf, self.pos, Endian::Big);
            self.pos = self.pos + 2;
            Ok(v)
        } else {
            Err(ClassFileError::IOError)
        }
    }

    fn read_u32(&mut self) -> (r: Result<u32, ClassFileError>)
        ensures
            final(self).input() == old(self).input(),
            match r {
                Ok(v) => 0 <= old(self).position() && old(self).position() + 4 <= old(self).input().len() && v == be32(old(self).input(), old(self).position()) && final(self).position() == old(self).position() + 4,
                Err(e) => e is IOError && !(0 <= old(self).position() && old(self).position() + 4
                    <= old(self).input().len()),
            },
    {
        if self.pos < self.buf.len() && self.buf.len() - self.pos >= 4 {
            let v = read_u32_at(self.buf, self.pos, Endian::Big);
            self.pos = self.pos + 4;
            Ok(v)
        } else {
            Err(ClassFileError::IOError)
        }
    }

    /// Reads `n` bytes.
    fn read_bytes(&mut self, n: usize) -> (r: Result<&'a [u8], ClassFileError>)
        ensures
            final(self).input() == old(self).input(),
            match r {
                Ok(v) => 0 <= old(self).position() && old(self).position() + n <= old(self).input().len() && v@ == old(self).input().subrange(
                    old(self).position(),
                    old(self).position() + n,
                ) && final(self).position() == old(self).position() + n,
                Err(e) => e is IOError && !(0 <= old(self).position() && old(self).position() + n
                    <= old(self).input().len()),
            },
    {
        if self.pos <= self.buf.len() && self.buf.len() - self.pos >= n {
            let v = &self.buf[self.pos..self.pos + n];
            self.pos = self.pos + n;
            Ok(v)
        } else {
            Err(ClassFileError::IOError)
        }
    }

    /// Reads one constant pool entry.
    #[verifier::rlimit(30)]
    fn parse_cp_info(&mut self) -> (r: Result<CpInfo, ClassFileError>)
        ensures
            final(self).input() == old(self).input(),
            match r {
                Ok(c) => sp_cp_info(old(self).input(), old(self).position()) == Ok::<
                    (CpEntry, int),
                    ClassFileError,
                >((c@, final(self).position())),
                Err(e) => sp_cp_info(old(self).input(), old(self).position()) == Err::<
                    (CpEntry, int),
                    ClassFileError,
                >(e),
            },
    {
        let tag = self.read_u8()?;
        if tag == 1 {
            let n = self.read_u16()?;
            let b = self.read_bytes(n as usize)?;
            return Ok(CpInfo::Utf8(utf8_lossy(b)));
        }
        let size = payload_size(tag);
        if size == 0 {
            return Err(ClassFileError::InvalidCpInfoTag(tag));
        }
        let q = self.pos;
        let b = self.buf;
        proof {
            reveal(cp_fixed_entry);
        }
        if self.buf.len() - q < size {
            return Err(ClassFileError::IOError);
        }
        let entry = if tag == 3 {
            CpInfo::Integer(to_signed32(read_u32_at(b, q, Endian::Big)))
        } else if tag == 4 {
            CpInfo::Float(FloatValue::from_float_bits(read_u32_at(b, q, Endian::Big)))
        } else if tag == 5 {
            CpInfo::Long(to_signed64(read_u64_at(b, q)))
        } else if tag == 6 {
            CpInfo::Double(FloatValue::from_double_bits(read_u64_at(b, q)))
        } else if tag == 7 {
            CpInfo::Class(ClassInfo { name_index: read_u16_at(b, q, Endian::Big) })
        } else if tag == 8 {
            CpInfo::String { string_index: read_u16_at(b, q, Endian::Big) }
        } else if tag == 9 || tag == 10 || tag == 11 {
            let r = RefInfo {
                class_index: read_u16_at(b, q, Endian::Big),
                name_and_type_index: read_u16_at(b, q + 2, Endian::Big),
            };
            if tag == 9 {
                CpInfo::FieldRef(r)
            } else if tag == 10 {
                CpInfo::MethodRef(r)
            } else {
                CpInfo::InterfaceMethodRef(r)
            }
        } else if tag == 12 {
            CpInfo::NameAndType(
                NameAndTypeInfo {
                    name_index: read_u16_at(b, q, Endian::Big),
                    descriptor_index: read_u16_at(b, q + 2, Endian::Big),
                },
            )
        } else if tag == 15 {
            CpInfo::MethodHandle(
                MethodHandleInfo {
                    reference_kind: b[q],
                    reference_index: read_u16_at(b, q + 1, Endian::Big),
                },
            )
        } else if tag == 16 {
            CpInfo::MethodType(MethodTypeInfo { descriptor_index: read_u16_at(b, q, Endian::Big) })
        } else {
            CpInfo::InvokeDynamic(
                InvokeDynamicInfo {
                    bootstrap_method_attr_index: read_u16_at(b, q, Endian::Big),
                    name_and_type_index: read_u16_at(b, q + 2, Endian::Big),
                },
            )
        };
        self.pos = q + size;
        Ok(entry)
    }

    /// Reads the constant pool: its count, then entries until `count - 1` slots are filled.
    pub fn parse_constant_pool(&mut self) -> (r: Result<ConstantPool, ClassFileError>)
        ensures
            final(self).input() == old(self).input(),
            match r {
                Ok(c) => sp_constant_pool(old(self).input(), old(self).position()) == Ok::<
                    (Seq<CpEntry>, int),
                    ClassFileError,
                >((c@, final(self).position())),
                Err(e) => sp_constant_pool(old(self).input(), old(self).position()) == Err::<
                    (Seq<CpEntry>, int),
                    ClassFileError,
                >(e),
            },
    {
        let ghost s = self.buf@;
        let ghost p0 = self.pos as int;
        let count = self.read_u16()?;
        if count == 0 {
            return Err(ClassFileError::InvalidConstantPoolCount(0));
        }
        let mut remaining: usize = count as usize - 1;
        let mut res: Vec<CpInfo> = Vec::new();
        assert(res@.map_values(|c: CpInfo| c@) =~= Seq::<CpEntry>::empty());
        while remaining > 0
            invariant
                self.buf@ == s,
                s == old(self).input(),
                p0 == old(self).position(),
                sp_constant_pool(s, p0) == sp_cp_entries(
                    s,
                    self.pos as int,
                    remaining as int,
                    res@.map_values(|c: CpInfo| c@),
                    count,
                ),
            decreases remaining,
        {
            let ghost acc = res@.map_values(|c: CpInfo| c@);
            let info = self.parse_cp_info()?;
            let wide = info.is_wide();
            let ghost v = info@;
            if wide {
                if remaining < 2 {
                    return Err(ClassFileError::InvalidConstantPoolCount(count));
                }
                res.push(info);
                res.push(CpInfo::Unusable);
                assert(res@.map_values(|c: CpInfo| c@) =~= acc.push(v).push(CpEntry::Unusable));
                remaining = remaining - 2;
            } else {
                res.push(info);
                assert(res@.map_values(|c: CpInfo| c@) =~= acc.push(v));
                remaining = remaining - 1;
            }
        }
        let pool = ConstantPool::new(res);
        Ok(pool)
    }

    /// Reads one attribute, keeping its body as raw bytes.
    fn parse_attribute(&mut self) -> (r: Result<Attribute, ClassFileError>)
        ensures
            final(self).input() == old(self).input(),
            match r {
                Ok(a) => sp_attribute(old(self).input(), old(self).position()) == Ok::<
                    (AttributeView, int),
                    ClassFileError,
                >((a@, final(self).position())),
                Err(e) => sp_attribute(old(self).input(), old(self).position()) == Err::<
                    (AttributeView, int),
                    ClassFileError,
                >(e),
            },
    {
        let attribute_name_index = self.read_u16()?;
        let length = self.read_u32()?;
        let info = self.read_bytes(length as usize)?;
        Ok(Attribute { attribute_name_index, info: vstd::slice::slice_to_vec(info) })
    }

    /// Reads `count` attributes.
    fn parse_attribute_list(&mut self, count: u16) -> (r: Result<Attributes, ClassFileError>)
        ensures
            final(self).input() == old(self).input(),
            match r {
                Ok(a) => sp_attributes_from(
                    old(self).input(),
                    old(self).position(),
                    count as int,
                    Seq::empty(),
                ) == Ok::<(Seq<AttributeView>, int), ClassFileError>((a@, final(self).position())),
                Err(e) => sp_attributes_from(
                    old(self).input(),
                    old(self).position(),
                    count as int,
                    Seq::empty(),
                ) == Err::<(Seq<AttributeView>, int), ClassFileError>(e),
            },
    {
        let ghost s = self.buf@;
        let ghost p0 = self.pos as int;
        let mut v: Vec<Attribute> = Vec::new();
        let mut i: u16 = 0;
        assert(v@.map_values(|a: Attribute| a@) =~= Seq::<AttributeView>::empty());
        while i < count
            invariant
                self.buf@ == s,
                s == old(self).input(),
                p0 == old(self).position(),
                i <= count,
                sp_attributes_from(s, p0, count as int, Seq::empty()) == sp_attributes_from(
                    s,
                    self.pos as int,
                    count - i,
                    v@.map_values(|a: Attribute| a@),
                ),
            decreases count - i,
        {
            let ghost acc = v@.map_values(|a: Attribute| a@);
            let a = self.parse_attribute()?;
            let ghost av = a@;
            v.push(a);
            assert(v@.map_values(|a: Attribute| a@) =~= acc.push(av));
            i = i + 1;
        }
        Ok(Attributes(v))
    }

    /// Reads a 16-bit count and that many attributes.
    fn parse_attributes(&mut self) -> (r: Result<Attributes, ClassFileError>)
        ensures
            final(self).input() == old(self).input(),
            match r {
                Ok(a) => sp_attributes(old(self).input(), old(self).position()) == Ok::<
                    (Seq<AttributeView>, int),
                    ClassFileError,
                >((a@, final(self).position())),
                Err(e) => sp_attributes(old(self).input(), old(self).position()) == Err::<
                    (Seq<AttributeView>, int),
                    ClassFileError,
                >(e),
            },
    {
        let count = self.read_u16()?;
        self.parse_attribute_list(count)
    }

    /// Reads the access flags, name index, descriptor index and attributes of a field or method.
    fn parse_member(&mut self) -> (r: Result<(u16, u16, u16, Attributes), ClassFileError>)
        ensures
            final(self).input() == old(self).input(),
            match r {
                Ok((f, n, d, a)) => sp_member(old(self).input(), old(self).position()) == Ok::<
                    (MemberView, int),
                    ClassFileError,
                >(
                    (
                        MemberView {
                            access_flags: f,
                            name_index: n,
                            descriptor_index: d,
                            attributes: a@,
                        },
                        final(self).position(),
                    ),
                ),
                Err(e) => sp_member(old(self).input(), old(self).position()) == Err::<
                    (MemberView, int),
                    ClassFileError,
                >(e),
            },
    {
        if !(self.pos <= self.buf.len() && self.buf.len() - self.pos >= 6) {
            return Err(ClassFileError::IOError);
        }
        let access_flags = self.read_u16()?;
        let name_index = self.read_u16()?;
        let descriptor_index = self.read_u16()?;
        let attributes = self.parse_attributes()?;
        Ok((access_flags, name_index, descriptor_index, attributes))
    }

    /// Reads a 16-bit count and that many fields.
    fn parse_fields(&mut self) -> (r: Result<Vec<FieldInfo>, ClassFileError>)
        ensures
            final(self).input() == old(self).input(),
            match r {
                Ok(v) => sp_members(old(self).input(), old(self).position()) == Ok::<
                    (Seq<MemberView>, int),
                    ClassFileError,
                >((v@.map_values(|f: FieldInfo| f@), final(self).position())),
                Err(e) => sp_members(old(self).input(), old(self).position()) == Err::<
                    (Seq<MemberView>, int),
                    ClassFileError,
                >(e),
            },
    {
        let ghost s = self.buf@;
        let count = self.read_u16()?;
        let ghost p0 = self.pos as int;
        let mut v: Vec<FieldInfo> = Vec::new();
        let mut i: u16 = 0;
        assert(v@.map_values(|f: FieldInfo| f@) =~= Seq::<MemberView>::empty());
        while i < count
            invariant
                self.buf@ == s,
                s == old(self).input(),
                sp_members(s, old(self).position()) == sp_members_from(s, p0, count as int, Seq::empty()),
                i <= count,
                sp_members_from(s, p0, count as int, Seq::empty()) == sp_members_from(
                    s,
                    self.pos as int,
                    count - i,
                    v@.map_values(|f: FieldInfo| f@),
                ),
            decreases count - i,
        {
            let ghost acc = v@.map_values(|f: FieldInfo| f@);
            let (access_flags, name_index, descriptor_index, attributes) = self.parse_member()?;
            let f = FieldInfo { access_flags, name_index, descriptor_index, attributes };
            let ghost fv = f@;
            v.push(f);
            assert(v@.map_values(|f: FieldInfo| f@) =~= acc.push(fv));
            i = i + 1;
        }
        Ok(v)
    }

    /// Reads a 16-bit count and that many methods.
    fn parse_methods(&mut self) -> (r: Result<Vec<MethodInfo>, ClassFileError>)
        ensures
            final(self).input() == old(self).input(),
            match r {
                Ok(v) => sp_members(old(self).input(), old(self).position()) == Ok::<
                    (Seq<MemberView>, int),
                    ClassFileError,
                >((v@.map_values(|m: MethodInfo| m@), final(self).position())),
                Err(e) => sp_members(old(self).input(), old(self).position()) == Err::<
                    (Seq<MemberView>, int),
                    ClassFileError,
                >(e),
            },
    {
        let ghost s = self.buf@;
        let count = self.read_u16()?;
        let ghost p0 = self.pos as int;
        let mut v: Vec<MethodInfo> = Vec::new();
        let mut i: u16 = 0;
        assert(v@.map_values(|m: MethodInfo| m@) =~= Seq::<MemberView>::empty());
        while i < count
            invariant
                self.buf@ == s,
                s == old(self).input(),
                sp_members(s, old(self).position()) == sp_members_from(s, p0, count as int, Seq::empty()),
                i <= count,
                sp_members_from(s, p0, count as int, Seq::empty()) == sp_members_from(
                    s,
                    self.pos as int,
                    count - i,
                    v@.map_values(|m: MethodInfo| m@),
                ),
            decreases count - i,
        {
            let ghost acc = v@.map_values(|m: MethodInfo| m@);
            let (access_flags, name_index, descriptor_index, attributes) = self.parse_member()?;
            let m = MethodInfo { access_flags, name_index, descriptor_index, attributes };
            let ghost mv = m@;
            v.push(m);
            assert(v@.map_values(|m: MethodInfo| m@) =~= acc.push(mv));
            i = i + 1;
        }
        Ok(v)
    }

    /// Reads a 16-bit count and that many 16-bit indices.
    fn parse_u16_list(&mut self) -> (r: Result<Vec<u16>, ClassFileError>)
        ensures
            final(self).input() == old(self).input(),
            match r {
                Ok(v) => sp_u16_list(old(self).input(), old(self).position()) == Ok::<
                    (Seq<u16>, int),
                    ClassFileError,
                >((v@, final(self).position())),
                Err(e) => sp_u16_list(old(self).input(), old(self).position()) == Err::<
                    (Seq<u16>, int),
                    ClassFileError,
                >(e),
            },
    {
        let ghost s = self.buf@;
        let ghost p0 = self.pos as int;
        let count = self.read_u16()?;
        let n = count as usize;
        if !(self.buf.len() - self.pos >= 2 * n) {
            return Err(ClassFileError::IOError);
        }
        let start = self.pos;
        let len = self.buf.len();
        let mut v: Vec<u16> = Vec::new();
        let mut i: usize = 0;
        while i < n
            invariant
                self.buf@ == s,
                len == s.len(),
                start == p0 + 2,
                start + 2 * n <= s.len(),
                i <= n,
                v@.len() == i,
                forall|j: int| 0 <= j < i ==> v@[j] == be16(s, p0 + 2 + 2 * j),
            decreases n - i,
        {
            v.push(read_u16_at(self.buf, start + 2 * i, Endian::Big));
            i = i + 1;
        }
        self.pos = start + 2 * n;
        assert(v@ =~= Seq::new(n as nat, |j: int| be16(s, p0 + 2 + 2 * j)));
        Ok(v)
    }

    /// Reads a whole class file from the current position.
    #[verifier::rlimit(30)]
    pub fn parse(&mut self) -> (r: Result<ClassFile, ClassFileError>)
        ensures
            final(self).input() == old(self).input(),
            match r {
                Ok(c) => sp_class_file(old(self).input(), old(self).position()) == Ok::<
                    (ClassFileView, int),
                    ClassFileError,
                >((c@, final(self).position())),
                Err(e) => sp_class_file(old(self).input(), old(self).position()) == Err::<
                    (ClassFileView, int),
                    ClassFileError,
                >(e),
            },
    {
        let magic = self.read_u32()?;
        if magic != CLASS_MAGIC {
            return Err(ClassFileError::InvalidMagicIdentifier(magic));
        }
        let _minor = self.read_u16()?;
        let _major = self.read_u16()?;
        let constant_pool = self.parse_constant_pool()?;
        if !(self.pos <= self.buf.len() && self.buf.len() - self.pos >= 6) {
            return Err(ClassFileError::IOError);
        }
        let access_flags = self.read_u16()?;
        let this_class = self.read_u16()?;
        let super_class = self.read_u16()?;
        let interfaces = self.parse_u16_list()?;
        let fields = self.parse_fields()?;
        let methods = self.parse_methods()?;
        let attributes = self.parse_attributes()?;
        Ok(
            ClassFile {
                constant_pool,
                access_flags,
                this_class,
                super_class,
                interfaces,
                fields,
                methods,
                attributes,
            },
        )
    }

    /// Reads the body of a `Code` attribute: stack and locals limits, the
    /// bytecode, the exception table and the nested attributes.
    #[verifier::rlimit(30)]
    pub fn parse_code_attribute(&mut self) -> (r: Result<CodeAttribute, ClassFileError>)
        ensures
            final(self).input() == old(self).input(),
            match r {
                Ok(c) => sp_code(old(self).input(), old(self).position()) == Ok::<
                    (CodeView, int),
                    ClassFileError,
                >((c@, final(self).position())),
                Err(e) => sp_code(old(self).input(), old(self).position()) == Err::<
                    (CodeView, int),
                    ClassFileError,
                >(e),
            },
    {
        let ghost s = self.buf@;
        let ghost p0 = self.pos as int;
        let max_stack = self.read_u16()?;
        let max_locals = self.read_u16()?;
        let code_length = self.read_u32()?;
        let code = self.read_bytes(code_length as usize)?;
        let ghost c = self.pos as int;
        let n = self.read_u16()? as usize;
        if !(self.buf.len() - self.pos >= 8 * n) {
            return Err(ClassFileError::IOError);
        }
        let start = self.pos;
        let len = self.buf.len();
        let mut table: Vec<ExceptionTableEntry> = Vec::new();
        let mut i: usize = 0;
        while i < n
            invariant
                self.buf@ == s,
                len == s.len(),
                start == c + 2,
                start + 8 * n <= s.len(),
                i <= n,
                table@.len() == i,
                forall|j: int| 0 <= j < i ==> table@[j] == exception_entry_at(s, c + 2 + 8 * j),
            decreases n - i,
        {
            let q = start + 8 * i;
            table.push(
                ExceptionTableEntry {
                    start_pc: read_u16_at(self.buf, q, Endian::Big),
                    end_pc: read_u16_at(self.buf, q + 2, Endian::Big),
                    handler_pc: read_u16_at(self.buf, q + 4, Endian::Big),
                    catch_type: read_u16_at(self.buf, q + 6, Endian::Big),
                },
            );
            i = i + 1;
        }
        self.pos = start + 8 * n;
        assert(table@ =~= Seq::new(n as nat, |j: int| exception_entry_at(s, c + 2 + 8 * j)));
        let attributes = self.parse_attributes()?;
        Ok(
            CodeAttribute {
                max_stack,
                max_locals,
                code: vstd::slice::slice_to_vec(code),
                exception_table: table,
                attributes,
            },
        )
    }
}

/// Decoding the pool keeps every `Long` and `Double` followed by an unusable slot.
proof fn lemma_cp_entries_paired(s: Seq<u8>, p: int, remaining: int, acc: Seq<CpEntry>, count: u16)
    requires
        wide_slots_paired(acc),
    ensures
        sp_cp_entries(s, p, remaining, acc, count) matches Ok((pool, _)) ==> wide_slots_paired(pool),
    decreases remaining,
{
    if remaining > 0 {
        if let Ok((e, q)) = sp_cp_info(s, p) {
            if e.is_wide() {
                if remaining >= 2 {
                    let next = acc.push(e).push(CpEntry::Unusable);
                    assert forall|i: int|
                        0 <= i < next.len() && (#[trigger] next[i]).is_wide() implies i + 1
                        < next.len() && next[i + 1] is Unusable by {
                        if i < acc.len() {
                            assert(acc[i].is_wide());
                        }
                    }
                    lemma_cp_entries_paired(s, q, remaining - 2, next, count);
                }
            } else {
                let next = acc.push(e);
                assert forall|i: int|
                    0 <= i < next.len() && (#[trigger] next[i]).is_wide() implies i + 1 < next.len()
                    && next[i + 1] is Unusable by {
                    if i < acc.len() {
                        assert(acc[i].is_wide());
                    }
                }
                lemma_cp_entries_paired(s, q, remaining - 1, next, count);
            }
        }
    }
}

/// In every decoded class file, each `Long` or `Double` at slot `i` of the pool
/// is followed by an `Unusable` slot `i + 1`.
pub proof fn lemma_class_pool_paired(s: Seq<u8>, p: int)
    ensures
        sp_class_file(s, p) matches Ok((c, _)) ==> wide_slots_paired(c.constant_pool),
{
    if 0 <= p && p + 10 <= s.len() {
        lemma_cp_entries_paired(s, p + 10, be16(s, p + 8) - 1, Seq::empty(), be16(s, p + 8));
    }
}

/// A class file decodes only if it opens with `0xCAFEBABE`: input of fewer than
/// four bytes fails with `IOError`, and any other first four bytes fail with
/// `InvalidMagicIdentifier` carrying them.
pub proof fn lemma_class_file_magic(s: Seq<u8>)
    ensures
        sp_class_file(s, 0) is Ok ==> s.len() >= 4 && be32(s, 0) == CLASS_MAGIC,
        s.len() < 4 ==> sp_class_file(s, 0) is Err && sp_class_file(s, 0)->Err_0 is IOError,
        s.len() >= 4 && be32(s, 0) != CLASS_MAGIC ==> sp_class_file(s, 0) is Err && sp_class_file(
            s,
            0,
        )->Err_0 == ClassFileError::InvalidMagicIdentifier(be32(s, 0)),
{
}

/// Reads inside the first `k` bytes see the same values in `s` and in its prefix.
proof fn lemma_prefix_reads(s: Seq<u8>, k: int)
    requires
        0 <= k <= s.len(),
    ensures
        forall|x: int| 0 <= x < k ==> #[trigger] s.subrange(0, k)[x] == s[x],
        forall|x: int| 0 <= x && x + 2 <= k ==> #[trigger] be16(s.subrange(0, k), x) == be16(s, x),
        forall|x: int| 0 <= x && x + 4 <= k ==> #[trigger] be32(s.subrange(0, k), x) == be32(s, x),
        forall|x: int| 0 <= x && x + 8 <= k ==> #[trigger] be64(s.subrange(0, k), x) == be64(s, x),
        forall|a: int, b: int|
            0 <= a <= b <= k ==> #[trigger] s.subrange(0, k).subrange(a, b) == s.subrange(a, b),
{
    let t = s.subrange(0, k);
    assert forall|a: int, b: int| 0 <= a <= b <= k implies #[trigger] t.subrange(a, b) == s.subrange(
        a,
        b,
    ) by {
        assert(t.subrange(a, b) =~= s.subrange(a, b));
    }
}

/// A fixed-size entry reads the same from any prefix that holds its payload.
proof fn lemma_prefix_fixed_entry(s: Seq<u8>, k: int, q: int, tag: u8)
    requires
        0 <= k <= s.len(),
        0 <= q,
        q + cp_payload_size(tag) <= k,
        cp_payload_size(tag) > 0,
    ensures
        cp_fixed_entry(s.subrange(0, k), q, tag) == cp_fixed_entry(s, q, tag),
{
    reveal(cp_fixed_entry);
    lemma_prefix_reads(s, k);
}

/// Cutting the input at `k` leaves an entry that ends by `k` unchanged and
/// turns one that ends after `k` into `IOError`.
#[verifier::rlimit(30)]
proof fn lemma_prefix_cp_info(s: Seq<u8>, k: int, p: int)
    requires
        0 <= k <= s.len(),
        sp_cp_info(s, p) is Ok,
    ensures
        sp_cp_info(s, p) matches Ok((_, q)) && p < q && (q <= k ==> sp_cp_info(s.subrange(0, k), p)
            == sp_cp_info(s, p)) && (q > k ==> sp_cp_info(s.subrange(0, k), p) == Err::<
            (CpEntry, int),
            ClassFileError,
        >(ClassFileError::IOError)),
{
    lemma_prefix_reads(s, k);
    let tag = s[p];
    if tag != 1 && p + 1 + cp_payload_size(tag) <= k {
        lemma_prefix_fixed_entry(s, k, p + 1, tag);
    }
}

#[verifier::rlimit(40)]
proof fn lemma_prefix_cp_entries(
    s: Seq<u8>,
    k: int,
    p: int,
    remaining: int,
    acc: Seq<CpEntry>,
    count: u16,
)
    requires
        0 <= k <= s.len(),
        sp_cp_entries(s, p, remaining, acc, count) is Ok,
    ensures
        sp_cp_entries(s, p, remaining, acc, count) matches Ok((_, q)) && p <= q && (q <= k
            ==> sp_cp_entries(s.subrange(0, k), p, remaining, acc, count) == sp_cp_entries(
            s,
            p,
            remaining,
            acc,
            count,
        )) && (q > k && p <= k ==> sp_cp_entries(s.subrange(0, k), p, remaining, acc, count)
            == Err::<(Seq<CpEntry>, int), ClassFileError>(ClassFileError::IOError)),
    decreases remaining,
{
    if remaining > 0 {
        let t = s.subrange(0, k);
        lemma_prefix_cp_info(s, k, p);
        let (e, q1) = sp_cp_info(s, p)->Ok_0;
        let rest = if e.is_wide() {
            remaining - 2
        } else {
            remaining - 1
        };
        let next = if e.is_wide() {
            acc.push(e).push(CpEntry::Unusable)
        } else {
            acc.push(e)
        };
        assert(sp_cp_entries(s, p, remaining, acc, count) == sp_cp_entries(s, q1, rest, next, count));
        lemma_prefix_cp_entries(s, k, q1, rest, next, count);
        if q1 > k {
            assert(sp_cp_entries(t, p, remaining, acc, count) == Err::<
                (Seq<CpEntry>, int),
                ClassFileError,
            >(ClassFileError::IOError));
        } else {
            assert(sp_cp_entries(t, p, remaining, acc, count) == sp_cp_entries(
                t,
                q1,
                rest,
                next,
                count,
            ));
        }
    }
}

proof fn lemma_prefix_attribute(s: Seq<u8>, k: int, p: int)
    requires
        0 <= k <= s.len(),
        sp_attribute(s, p) is Ok,
    ensures
        sp_attribute(s, p) matches Ok((_, q)) && p < q && (q <= k ==> sp_attribute(
            s.subrange(0, k),
            p,
        ) == sp_attribute(s, p)) && (q > k ==> sp_attribute(s.subrange(0, k), p) == Err::<
            (AttributeView, int),
            ClassFileError,
        >(ClassFileError::IOError)),
{
    lemma_prefix_reads(s, k);
}

proof fn lemma_prefix_attributes_from(
    s: Seq<u8>,
    k: int,
    p: int,
    n: int,
    acc: Seq<AttributeView>,
)
    requires
        0 <= k <= s.len(),
        sp_attributes_from(s, p, n, acc) is Ok,
    ensures
        sp_attributes_from(s, p, n, acc) matches Ok((_, q)) && p <= q && (q <= k
            ==> sp_attributes_from(s.subrange(0, k), p, n, acc) == sp_attributes_from(s, p, n, acc))
            && (q > k && p <= k ==> sp_attributes_from(s.subrange(0, k), p, n, acc) == Err::<
            (Seq<AttributeView>, int),
            ClassFileError,
        >(ClassFileError::IOError)),
    decreases n,
{
    if n > 0 {
        let t = s.subrange(0, k);
        lemma_prefix_attribute(s, k, p);
        let (a, q1) = sp_attribute(s, p)->Ok_0;
        lemma_prefix_attributes_from(s, k, q1, n - 1, acc.push(a));
        assert(sp_attributes_from(s, p, n, acc) == sp_attributes_from(s, q1, n - 1, acc.push(a)));
        if q1 > k {
            assert(sp_attributes_from(t, p, n, acc) == Err::<(Seq<AttributeView>, int), ClassFileError>(
                ClassFileError::IOError,
            ));
        } else {
            assert(sp_attributes_from(t, p, n, acc) == sp_attributes_from(t, q1, n - 1, acc.push(a)));
        }
    }
}

proof fn lemma_prefix_attributes(s: Seq<u8>, k: int, p: int)
    requires
        0 <= k <= s.len(),
        sp_attributes(s, p) is Ok,
    ensures
        sp_attributes(s, p) matches Ok((_, q)) && p < q && (q <= k ==> sp_attributes(
            s.subrange(0, k),
            p,
        ) == sp_attributes(s, p)) && (q > k ==> sp_attributes(s.subrange(0, k), p) == Err::<
            (Seq<AttributeView>, int),
            ClassFileError,
        >(ClassFileError::IOError)),
{
    lemma_prefix_reads(s, k);
    lemma_prefix_attributes_from(s, k, p + 2, be16(s, p) as int, Seq::empty());
}

proof fn lemma_prefix_member(s: Seq<u8>, k: int, p: int)
    requires
        0 <= k <= s.len(),
        sp_member(s, p) is Ok,
    ensures
        sp_member(s, p) matches Ok((_, q)) && p < q && (q <= k ==> sp_member(s.subrange(0, k), p)
            == sp_member(s, p)) && (q > k ==> sp_member(s.subrange(0, k), p) == Err::<
            (MemberView, int),
            ClassFileError,
        >(ClassFileError::IOError)),
{
    lemma_prefix_reads(s, k);
    lemma_prefix_attributes(s, k, p + 6);
}

proof fn lemma_prefix_members_from(s: Seq<u8>, k: int, p: int, n: int, acc: Seq<MemberView>)
    requires
        0 <= k <= s.len(),
        sp_members_from(s, p, n, acc) is Ok,
    ensures
        sp_members_from(s, p, n, acc) matches Ok((_, q)) && p <= q && (q <= k ==> sp_members_from(
            s.subrange(0, k),
            p,
            n,
            acc,
        ) == sp_members_from(s, p, n, acc)) && (q > k && p <= k ==> sp_members_from(
            s.subrange(0, k),
            p,
            n,
            acc,
        ) == Err::<(Seq<MemberView>, int), ClassFileError>(ClassFileError::IOError)),
    decreases n,
{
    if n > 0 {
        let t = s.subrange(0, k);
        lemma_prefix_member(s, k, p);
        let (m, q1) = sp_member(s, p)->Ok_0;
        lemma_prefix_members_from(s, k, q1, n - 1, acc.push(m));
        assert(sp_members_from(s, p, n, acc) == sp_members_from(s, q1, n - 1, acc.push(m)));
        if q1 > k {
            assert(sp_members_from(t, p, n, acc) == Err::<(Seq<MemberView>, int), ClassFileError>(
                ClassFileError::IOError,
            ));
        } else {
            assert(sp_members_from(t, p, n, acc) == sp_members_from(t, q1, n - 1, acc.push(m)));
        }
    }
}

proof fn lemma_prefix_members(s: Seq<u8>, k: int, p: int)
    requires
        0 <= k <= s.len(),
        sp_members(s, p) is Ok,
    ensures
        sp_members(s, p) matches Ok((_, q)) && p < q && (q <= k ==> sp_members(s.subrange(0, k), p)
            == sp_members(s, p)) && (q > k ==> sp_members(s.subrange(0, k), p) == Err::<
            (Seq<MemberView>, int),
            ClassFileError,
        >(ClassFileError::IOError)),
{
    lemma_prefix_reads(s, k);
    lemma_prefix_members_from(s, k, p + 2, be16(s, p) as int, Seq::empty());
}

proof fn lemma_prefix_u16_list(s: Seq<u8>, k: int, p: int)
    requires
        0 <= k <= s.len(),
        sp_u16_list(s, p) is Ok,
    ensures
        sp_u16_list(s, p) matches Ok((_, q)) && p < q && (q <= k ==> sp_u16_list(s.subrange(0, k), p)
            == sp_u16_list(s, p)) && (q > k ==> sp_u16_list(s.subrange(0, k), p) == Err::<
            (Seq<u16>, int),
            ClassFileError,
        >(ClassFileError::IOError)),
{
    lemma_prefix_reads(s, k);
    let t = s.subrange(0, k);
    let n = be16(s, p) as int;
    if p + 2 + 2 * n <= k {
        assert(Seq::new(n as nat, |i: int| be16(t, p + 2 + 2 * i)) =~= Seq::new(
            n as nat,
            |i: int| be16(s, p + 2 + 2 * i),
        ));
    }
}

#[verifier::rlimit(30)]
proof fn lemma_prefix_class_rest(s: Seq<u8>, k: int, p1: int, pool: Seq<CpEntry>)
    requires
        0 <= k <= s.len(),
        sp_class_rest(s, p1, pool) is Ok,
    ensures
        sp_class_rest(s, p1, pool) matches Ok((_, q)) && p1 < q && (q <= k ==> sp_class_rest(
            s.subrange(0, k),
            p1,
            pool,
        ) == sp_class_rest(s, p1, pool)) && (q > k ==> sp_class_rest(s.subrange(0, k), p1, pool)
            == Err::<(ClassFileView, int), ClassFileError>(ClassFileError::IOError)),
{
    lemma_prefix_reads(s, k);
    lemma_prefix_u16_list(s, k, p1 + 6);
    let (_, p2) = sp_u16_list(s, p1 + 6)->Ok_0;
    lemma_prefix_members(s, k, p2);
    let (_, p3) = sp_members(s, p2)->Ok_0;
    lemma_prefix_members(s, k, p3);
    let (_, p4) = sp_members(s, p3)->Ok_0;
    lemma_prefix_attributes(s, k, p4);
}

/// Every internal length of a class file must fit: a class file that decodes
/// from `s` and ends at `end` fails with `IOError` when cut anywhere before
/// `end`, and decodes to the same value when cut at `end` or later.
#[verifier::rlimit(30)]
pub proof fn lemma_class_file_prefix(s: Seq<u8>, k: int)
    requires
        0 <= k <= s.len(),
        sp_class_file(s, 0) is Ok,
    ensures
        sp_class_file(s, 0) matches Ok((_, end)) && (k < end ==> sp_class_file(s.subrange(0, k), 0)
            == Err::<(ClassFileView, int), ClassFileError>(ClassFileError::IOError)) && (end <= k
            ==> sp_class_file(s.subrange(0, k), 0) == sp_class_file(s, 0)),
{
    lemma_prefix_reads(s, k);
    let t = s.subrange(0, k);
    let (pool, p1) = sp_constant_pool(s, 8)->Ok_0;
    lemma_prefix_cp_entries(s, k, 10, be16(s, 8) - 1, Seq::empty(), be16(s, 8));
    lemma_prefix_class_rest(s, k, p1, pool);
    if k >= 10 {
        assert(sp_constant_pool(t, 8) == sp_cp_entries(t, 10, be16(s, 8) - 1, Seq::empty(), be16(s, 8)));
        if p1 <= k {
            assert(sp_class_file(t, 0) == sp_class_rest(t, p1, pool));
        }
    } else if k >= 4 {
        assert(be32(t, 0) == be32(s, 0));
    }
}

} // verus!
