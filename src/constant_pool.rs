//! The constant pool of a class file: tagged entries indexed from 1, where
//! each 8-byte entry is followed by an unusable slot.

use vstd::prelude::*;

verus! {

/// A reference from a field, method or interface method entry.
#[derive(Clone, Copy, Debug, PartialEq, Eq, Structural)]
pub struct RefInfo {
    pub class_index: u16,
    pub name_and_type_index: u16,
}

/// A class entry: its name is the `Utf8` entry at `name_index`.
#[derive(Clone, Copy, Debug, PartialEq, Eq, Structural)]
pub struct ClassInfo {
    pub name_index: u16,
}

#[derive(Clone, Copy, Debug, PartialEq, Eq, Structural)]
pub struct NameAndTypeInfo {
    pub name_index: u16,
    pub descriptor_index: u16,
}

#[derive(Clone, Copy, Debug, PartialEq, Eq, Structural)]
pub struct InvokeDynamicInfo {
    pub bootstrap_method_attr_index: u16,
    pub name_and_type_index: u16,
}

#[derive(Clone, Copy, Debug, PartialEq, Eq, Structural)]
pub struct MethodHandleInfo {
    pub reference_kind: u8,
    pub reference_index: u16,
}

#[derive(Clone, Copy, Debug, PartialEq, Eq, Structural)]
pub struct MethodTypeInfo {
    pub descriptor_index: u16,
}

/// A floating-point constant as the class file format defines its value:
/// an infinity, a NaN, or `(-1)^negative * mantissa * 2^exponent`.
#[derive(Clone, Copy, Debug, PartialEq, Eq, Structural)]
pub enum FloatValue {
    PositiveInfinity,
    NegativeInfinity,
    NaN,
    Finite { negative: bool, mantissa: u64, exponent: i32 },
}

/// The value of the single-precision constant with bits `bits`.
pub open spec fn spec_float_value(bits: u32) -> FloatValue {
    if bits == 0x7f80_0000 {
        FloatValue::PositiveInfinity
    } else if bits == 0xff80_0000 {
        FloatValue::NegativeInfinity
    } else if (0x7f80_0001 <= bits && bits <= 0x7fff_ffff) || 0xff80_0001 <= bits {
        FloatValue::NaN
    } else {
        let e = (bits >> 23u32) & 0xffu32;
        let m = if e == 0 {
            (bits & 0x7f_ffffu32) << 1u32
        } else {
            (bits & 0x7f_ffffu32) | 0x80_0000u32
        };
        FloatValue::Finite { negative: (bits >> 31u32) != 0, mantissa: m as u64, exponent: (e as i32 - 150) as i32 }
    }
}

/// The value of the double-precision constant with bits `bits`.
pub open spec fn spec_double_value(bits: u64) -> FloatValue {
    if bits == 0x7ff0_0000_0000_0000 {
        FloatValue::PositiveInfinity
    } else if bits == 0xfff0_0000_0000_0000 {
        FloatValue::NegativeInfinity
    } else if (0x7ff0_0000_0000_0001 <= bits && bits <= 0x7fff_ffff_ffff_ffff) || 0xfff0_0000_0000_0001
        <= bits {
        FloatValue::NaN
    } else {
        let e = (bits >> 52u64) & 0x7ffu64;
        let m = if e == 0 {
            (bits & 0xf_ffff_ffff_ffffu64) << 1u64
        } else {
            (bits & 0xf_ffff_ffff_ffffu64) | 0x10_0000_0000_0000u64
        };
        FloatValue::Finite { negative: (bits >> 63u64) != 0, mantissa: m, exponent: (e as i32 - 1075) as i32 }
    }
}

impl FloatValue {
    /// Decodes the bits of a single-precision constant.
    pub fn from_float_bits(bits: u32) -> (r: FloatValue)
        ensures
            r == spec_float_value(bits),
    {
        if bits == 0x7f80_0000 {
            FloatValue::PositiveInfinity
        } else if bits == 0xff80_0000 {
            FloatValue::NegativeInfinity
        } else if (0x7f80_0001 <= bits && bits <= 0x7fff_ffff) || 0xff80_0001 <= bits {
            FloatValue::NaN
        } else {
            let e = (bits >> 23u32) & 0xffu32;
            let m = if e == 0 {
                (bits & 0x7f_ffffu32) << 1u32
            } else {
                (bits & 0x7f_ffffu32) | 0x80_0000u32
            };
            assert(e <= 0xff) by (bit_vector)
                requires
                    e == (bits >> 23u32) & 0xffu32,
            ;
            FloatValue::Finite {
                negative: (bits >> 31u32) != 0,
                mantissa: m as u64,
                exponent: e as i32 - 150,
            }
        }
    }

    /// Decodes the bits of a double-precision constant.
    pub fn from_double_bits(bits: u64) -> (r: FloatValue)
        ensures
            r == spec_double_value(bits),
    {
        if bits == 0x7ff0_0000_0000_0000 {
            FloatValue::PositiveInfinity
        } else if bits == 0xfff0_0000_0000_0000 {
            FloatValue::NegativeInfinity
        } else if (0x7ff0_0000_0000_0001 <= bits && bits <= 0x7fff_ffff_ffff_ffff)
            || 0xfff0_0000_0000_0001 <= bits {
            FloatValue::NaN
        } else {
            let e = (bits >> 52u64) & 0x7ffu64;
            let m = if e == 0 {
                (bits & 0xf_ffff_ffff_ffffu64) << 1u64
            } else {
                (bits & 0xf_ffff_ffff_ffffu64) | 0x10_0000_0000_0000u64
            };
            assert(e <= 0x7ff) by (bit_vector)
                requires
                    e == (bits >> 52u64) & 0x7ffu64,
            ;
            FloatValue::Finite { negative: (bits >> 63u64) != 0, mantissa: m, exponent: e as i32 - 1075 }
        }
    }
}

/// One slot of the constant pool.
#[derive(Debug)]
pub enum CpInfo {
    MethodRef(RefInfo),
    FieldRef(RefInfo),
    Float(FloatValue),
    Double(FloatValue),
    InterfaceMethodRef(RefInfo),
    Class(ClassInfo),
    NameAndType(NameAndTypeInfo),
    Utf8(String),
    String { string_index: u16 },
    InvokeDynamic(InvokeDynamicInfo),
    Integer(i32),
    MethodHandle(MethodHandleInfo),
    MethodType(MethodTypeInfo),
    Long(i64),
    /// The slot after a `Long` or `Double`, which holds no entry.
    Unusable,
}

/// A constant pool slot as a mathematical value: `CpInfo` with its text as characters.
pub enum CpEntry {
    MethodRef(RefInfo),
    FieldRef(RefInfo),
    Float(FloatValue),
    Double(FloatValue),
    InterfaceMethodRef(RefInfo),
    Class(ClassInfo),
    NameAndType(NameAndTypeInfo),
    Utf8(Seq<char>),
    String { string_index: u16 },
    InvokeDynamic(InvokeDynamicInfo),
    Integer(i32),
    MethodHandle(MethodHandleInfo),
    MethodType(MethodTypeInfo),
    Long(i64),
    Unusable,
}

impl CpEntry {
    /// Whether this entry takes two slots of the pool.
    pub open spec fn is_wide(self) -> bool {
        self is Long || self is Double
    }
}

impl View for CpInfo {
    type V = CpEntry;

    open spec fn view(&self) -> CpEntry {
        match self {
            CpInfo::MethodRef(i) => CpEntry::MethodRef(*i),
            CpInfo::FieldRef(i) => CpEntry::FieldRef(*i),
            CpInfo::Float(v) => CpEntry::Float(*v),
            CpInfo::Double(v) => CpEntry::Double(*v),
            CpInfo::InterfaceMethodRef(i) => CpEntry::InterfaceMethodRef(*i),
            CpInfo::Class(i) => CpEntry::Class(*i),
            CpInfo::NameAndType(i) => CpEntry::NameAndType(*i),
            CpInfo::Utf8(s) => CpEntry::Utf8(s@),
            CpInfo::String { string_index } => CpEntry::String { string_index: *string_index },
            CpInfo::InvokeDynamic(i) => CpEntry::InvokeDynamic(*i),
            CpInfo::Integer(v) => CpEntry::Integer(*v),
            CpInfo::MethodHandle(i) => CpEntry::MethodHandle(*i),
            CpInfo::MethodType(i) => CpEntry::MethodType(*i),
            CpInfo::Long(v) => CpEntry::Long(*v),
            CpInfo::Unusable => CpEntry::Unusable,
        }
    }
}

impl Clone for CpInfo {
    fn clone(&self) -> (r: CpInfo)
        ensures
            r@ == self@,
    {
        match self {
            CpInfo::MethodRef(i) => CpInfo::MethodRef(*i),
            CpInfo::FieldRef(i) => CpInfo::FieldRef(*i),
            CpInfo::Float(v) => CpInfo::Float(*v),
            CpInfo::Double(v) => CpInfo::Double(*v),
            CpInfo::InterfaceMethodRef(i) => CpInfo::InterfaceMethodRef(*i),
            CpInfo::Class(i) => CpInfo::Class(*i),
            CpInfo::NameAndType(i) => CpInfo::NameAndType(*i),
            CpInfo::Utf8(s) => CpInfo::Utf8(s.clone()),
            CpInfo::String { string_index } => CpInfo::String { string_index: *string_index },
            CpInfo::InvokeDynamic(i) => CpInfo::InvokeDynamic(*i),
            CpInfo::Integer(v) => CpInfo::Integer(*v),
            CpInfo::MethodHandle(i) => CpInfo::MethodHandle(*i),
            CpInfo::MethodType(i) => CpInfo::MethodType(*i),
            CpInfo::Long(v) => CpInfo::Long(*v),
            CpInfo::Unusable => CpInfo::Unusable,
        }
    }
}

/// The constant pool: slot `i` (from 1) is element `i - 1`.
#[derive(Debug)]
pub struct ConstantPool {
    cp_infos: Vec<CpInfo>,
}

/// Whether every `Long` or `Double` of `pool` is followed by an unusable slot.
pub open spec fn wide_slots_paired(pool: Seq<CpEntry>) -> bool {
    forall|i: int|
        0 <= i < pool.len() && (#[trigger] pool[i]).is_wide() ==> i + 1 < pool.len() && pool[i
            + 1] is Unusable
}

impl View for ConstantPool {
    type V = Seq<CpEntry>;

    closed spec fn view(&self) -> Seq<CpEntry> {
        self.cp_infos@.map_values(|c: CpInfo| c@)
    }
}

impl ConstantPool {
    pub fn new(cp_infos: Vec<CpInfo>) -> (r: ConstantPool)
        ensures
            r@ == cp_infos@.map_values(|c: CpInfo| c@),
    {
        ConstantPool { cp_infos }
    }

    /// Whether `index` names a slot of the pool: 1 through the number of slots.
    pub open spec fn valid_index(&self, index: u16) -> bool {
        1 <= index <= self@.len()
    }

    /// The entry at `index`, counted from 1.
    pub open spec fn entry(&self, index: u16) -> CpEntry {
        self@[index - 1]
    }

    pub fn len(&self) -> (r: usize)
        ensures
            r == self@.len(),
    {
        self.cp_infos.len()
    }

    /// The slot at `index`, counted from 1.
    pub fn index(&self, index: u16) -> (r: &CpInfo)
        requires
            self.valid_index(index),
        ensures
            r@ == self.entry(index),
    {
        &self.cp_infos[index as usize - 1]
    }

    /// The slots in order.
    pub fn entries(&self) -> (r: &[CpInfo])
        ensures
            r@.map_values(|c: CpInfo| c@) == self@,
    {
        self.cp_infos.as_slice()
    }
}

} // verus!
