//! A decoded class file and the accessors that resolve its names through the
//! constant pool.

use crate::bytes::bytes_equal;
use crate::class_parser::{sp_class_file, sp_code, Parser};
use crate::constant_pool::{wide_slots_paired, ClassInfo, ConstantPool, CpEntry, CpInfo};
use vstd::string::StringSliceAdditionalSpecFns;
use vstd::utf8::encode_utf8_decode_utf8;
use vstd::prelude::*;

verus! {

/// Why a class file could not be decoded, or a name in it not resolved.
#[derive(Debug)]
pub enum ClassFileError {
    /// The input ended before the structure being read was complete.
    IOError,
    /// The pool entry at a resolved index is not of the expected variant
    /// (named by the first field); the second field is the entry found.
    UnexpectedConstantPoolEntry(&'static str, CpInfo),
    /// The constant pool count is 0, or a `Long` or `Double` starts in the
    /// last slot that the count allows; the field is the count.
    InvalidConstantPoolCount(u16),
    /// A constant pool entry has a tag this decoder does not know.
    InvalidCpInfoTag(u8),
    /// The first four bytes are not `0xCAFEBABE`.
    InvalidMagicIdentifier(u32),
}

/// A named attribute whose body is kept as raw bytes.
#[derive(Debug)]
pub struct Attribute {
    pub attribute_name_index: u16,
    pub info: Vec<u8>,
}

pub struct AttributeView {
    pub name_index: u16,
    pub info: Seq<u8>,
}

impl View for Attribute {
    type V = AttributeView;

    open spec fn view(&self) -> AttributeView {
        AttributeView { name_index: self.attribute_name_index, info: self.info@ }
    }
}

/// A sequence of attributes, in file order.
#[derive(Debug)]
pub struct Attributes(pub Vec<Attribute>);

impl View for Attributes {
    type V = Seq<AttributeView>;

    open spec fn view(&self) -> Seq<AttributeView> {
        self.0@.map_values(|a: Attribute| a@)
    }
}

#[derive(Clone, Copy, Debug, PartialEq, Eq, Structural)]
pub struct ExceptionTableEntry {
    pub start_pc: u16,
    pub end_pc: u16,
    pub handler_pc: u16,
    pub catch_type: u16,
}

/// The decoded body of a `Code` attribute.
#[derive(Debug)]
pub struct CodeAttribute {
    pub max_stack: u16,
    pub max_locals: u16,
    pub code: Vec<u8>,
    pub exception_table: Vec<ExceptionTableEntry>,
    pub attributes: Attributes,
}

pub struct CodeView {
    pub max_stack: u16,
    pub max_locals: u16,
    pub code: Seq<u8>,
    pub exception_table: Seq<ExceptionTableEntry>,
    pub attributes: Seq<AttributeView>,
}

impl View for CodeAttribute {
    type V = CodeView;

    open spec fn view(&self) -> CodeView {
        CodeView {
            max_stack: self.max_stack,
            max_locals: self.max_locals,
            code: self.code@,
            exception_table: self.exception_table@,
            attributes: self.attributes@,
        }
    }
}

/// A field or a method: access flags, name and descriptor indices, attributes.
pub struct MemberView {
    pub access_flags: u16,
    pub name_index: u16,
    pub descriptor_index: u16,
    pub attributes: Seq<AttributeView>,
}

#[derive(Debug)]
pub struct FieldInfo {
    pub access_flags: u16,
    pub name_index: u16,
    pub descriptor_index: u16,
    pub attributes: Attributes,
}

impl View for FieldInfo {
    type V = MemberView;

    open spec fn view(&self) -> MemberView {
        MemberView {
            access_flags: self.access_flags,
            name_index: self.name_index,
            descriptor_index: self.descriptor_index,
            attributes: self.attributes@,
        }
    }
}

#[derive(Debug)]
pub struct MethodInfo {
    pub access_flags: u16,
    pub name_index: u16,
    pub descriptor_index: u16,
    pub attributes: Attributes,
}

impl View for MethodInfo {
    type V = MemberView;

    open spec fn view(&self) -> MemberView {
        MemberView {
            access_flags: self.access_flags,
            name_index: self.name_index,
            descriptor_index: self.descriptor_index,
            attributes: self.attributes@,
        }
    }
}

/// A decoded class file.
#[derive(Debug)]
pub struct ClassFile {
    pub constant_pool: ConstantPool,
    pub access_flags: u16,
    pub this_class: u16,
    pub super_class: u16,
    pub interfaces: Vec<u16>,
    pub fields: Vec<FieldInfo>,
    pub methods: Vec<MethodInfo>,
    pub attributes: Attributes,
}

pub struct ClassFileView {
    pub constant_pool: Seq<CpEntry>,
    pub access_flags: u16,
    pub this_class: u16,
    pub super_class: u16,
    pub interfaces: Seq<u16>,
    pub fields: Seq<MemberView>,
    pub methods: Seq<MemberView>,
    pub attributes: Seq<AttributeView>,
}

impl View for ClassFile {
    type V = ClassFileView;

    open spec fn view(&self) -> ClassFileView {
        ClassFileView {
            constant_pool: self.constant_pool@,
            access_flags: self.access_flags,
            this_class: self.this_class,
            super_class: self.super_class,
            interfaces: self.interfaces@,
            fields: self.fields@.map_values(|f: FieldInfo| f@),
            methods: self.methods@.map_values(|m: MethodInfo| m@),
            attributes: self.attributes@,
        }
    }
}

/// What resolving `index` to a `Utf8` entry gives: its text, or the entry found instead.
pub open spec fn utf8_outcome(pool: &ConstantPool, index: u16, r: Result<&str, ClassFileError>) -> bool {
    match pool.entry(index) {
        CpEntry::Utf8(text) => r matches Ok(s) && s@ == text,
        other => r matches Err(ClassFileError::UnexpectedConstantPoolEntry(name, found)) && name@
            == "Utf8"@ && found@ == other,
    }
}

/// Whether `index` names a slot and, where that slot is a `Class`, its name index does too.
pub open spec fn class_resolvable(pool: &ConstantPool, index: u16) -> bool {
    &&& pool.valid_index(index)
    &&& pool.entry(index) matches CpEntry::Class(c) ==> pool.valid_index(c.name_index)
}

/// What resolving `index` to a `Class` entry and then to its name gives.
pub open spec fn class_name_outcome(pool: &ConstantPool, index: u16, r: Result<&str, ClassFileError>) -> bool {
    match pool.entry(index) {
        CpEntry::Class(c) => utf8_outcome(pool, c.name_index, r),
        other => r matches Err(ClassFileError::UnexpectedConstantPoolEntry(name, found)) && name@
            == "Class"@ && found@ == other,
    }
}

/// The text of the `Utf8` entry at `index`, or `UnexpectedConstantPoolEntry`.
pub fn expect_utf8(pool: &ConstantPool, index: u16) -> (r: Result<&str, ClassFileError>)
    requires
        pool.valid_index(index),
    ensures
        utf8_outcome(pool, index, r),
{
    match pool.index(index) {
        CpInfo::Utf8(s) => Ok(s.as_str()),
        c => {
            proof {
                reveal_strlit("Utf8");
            }
            Err(ClassFileError::UnexpectedConstantPoolEntry("Utf8", c.clone()))
        },
    }
}

/// The `Class` entry at `index`, or `UnexpectedConstantPoolEntry`.
pub fn expect_class(pool: &ConstantPool, index: u16) -> (r: Result<ClassInfo, ClassFileError>)
    requires
        pool.valid_index(index),
    ensures
        match pool.entry(index) {
            CpEntry::Class(c) => r matches Ok(found) && found == c,
            other => r matches Err(ClassFileError::UnexpectedConstantPoolEntry(name, found))
                && name@ == "Class"@ && found@ == other,
        },
{
    match pool.index(index) {
        CpInfo::Class(c) => Ok(*c),
        c => {
            proof {
                reveal_strlit("Class");
            }
            Err(ClassFileError::UnexpectedConstantPoolEntry("Class", c.clone()))
        },
    }
}

/// The name of the class at `index`: its `Class` entry resolved to the `Utf8` entry it names.
fn resolve_class_name(pool: &ConstantPool, index: u16) -> (r: Result<&str, ClassFileError>)
    requires
        class_resolvable(pool, index),
    ensures
        class_name_outcome(pool, index, r),
{
    let c = expect_class(pool, index)?;
    expect_utf8(pool, c.name_index)
}

impl ClassFile {
    /// The name of this class, in internal form (`my/MyClass`).
    pub fn class_name(&self) -> (r: Result<&str, ClassFileError>)
        requires
            class_resolvable(&self.constant_pool, self.this_class),
        ensures
            class_name_outcome(&self.constant_pool, self.this_class, r),
    {
        resolve_class_name(&self.constant_pool, self.this_class)
    }

    /// The name of the direct superclass; `None` when `super_class` is 0 (the class `Object`).
    pub fn super_class(&self) -> (r: Result<Option<&str>, ClassFileError>)
        requires
            self.super_class != 0 ==> class_resolvable(&self.constant_pool, self.super_class),
        ensures
            self.super_class == 0 ==> r matches Ok(None),
            self.super_class != 0 ==> match r {
                Ok(Some(s)) => class_name_outcome(&self.constant_pool, self.super_class, Ok(s)),
                Ok(None) => false,
                Err(e) => class_name_outcome(&self.constant_pool, self.super_class, Err(e)),
            },
    {
        if self.super_class == 0 {
            return Ok(None);
        }
        match resolve_class_name(&self.constant_pool, self.super_class) {
            Ok(s) => Ok(Some(s)),
            Err(e) => Err(e),
        }
    }

    /// The name of `field`.
    pub fn field_name(&self, field: &FieldInfo) -> (r: Result<&str, ClassFileError>)
        requires
            self.constant_pool.valid_index(field.name_index),
        ensures
            utf8_outcome(&self.constant_pool, field.name_index, r),
    {
        expect_utf8(&self.constant_pool, field.name_index)
    }

    /// The type descriptor of `field` (`I` for an `int`).
    pub fn field_descriptor(&self, field: &FieldInfo) -> (r: Result<&str, ClassFileError>)
        requires
            self.constant_pool.valid_index(field.descriptor_index),
        ensures
            utf8_outcome(&self.constant_pool, field.descriptor_index, r),
    {
        expect_utf8(&self.constant_pool, field.descriptor_index)
    }

    /// The name of `method` (`<init>` for a constructor).
    pub fn method_name(&self, method: &MethodInfo) -> (r: Result<&str, ClassFileError>)
        requires
            self.constant_pool.valid_index(method.name_index),
        ensures
            utf8_outcome(&self.constant_pool, method.name_index, r),
    {
        expect_utf8(&self.constant_pool, method.name_index)
    }

    /// The descriptor of `method` (`(I)F` for a method from `int` to `float`).
    pub fn method_descriptor(&self, method: &MethodInfo) -> (r: Result<&str, ClassFileError>)
        requires
            self.constant_pool.valid_index(method.descriptor_index),
        ensures
            utf8_outcome(&self.constant_pool, method.descriptor_index, r),
    {
        expect_utf8(&self.constant_pool, method.descriptor_index)
    }
}

/// Whether the name of `a` resolves to the `Utf8` entry `name`.
pub open spec fn attribute_named(pool: &ConstantPool, a: AttributeView, name: Seq<char>) -> bool {
    &&& pool.valid_index(a.name_index)
    &&& pool.entry(a.name_index) matches CpEntry::Utf8(t) && t == name
}

/// Whether `i` is the first of `attrs` whose name is `name`.
pub open spec fn first_named(
    pool: &ConstantPool,
    attrs: Seq<AttributeView>,
    name: Seq<char>,
    i: int,
) -> bool {
    &&& 0 <= i < attrs.len()
    &&& attribute_named(pool, attrs[i], name)
    &&& forall|j: int| 0 <= j < i ==> !attribute_named(pool, #[trigger] attrs[j], name)
}

/// Whether every attribute of `attrs` names a slot of `pool`.
pub open spec fn names_in_pool(pool: &ConstantPool, attrs: Seq<AttributeView>) -> bool {
    forall|i: int| 0 <= i < attrs.len() ==> pool.valid_index(#[trigger] attrs[i].name_index)
}

/// Whether two texts are equal, compared by their UTF-8 bytes.
fn text_equal(a: &str, b: &str) -> (r: bool)
    ensures
        r == (a@ == b@),
{
    proof {
        encode_utf8_decode_utf8(a@);
        encode_utf8_decode_utf8(b@);
    }
    bytes_equal(a.as_bytes(), b.as_bytes())
}

impl Attributes {
    /// The first attribute whose name (a `Utf8` entry of `constant_pool`) is `name`.
    pub fn find_by_name(&self, name: &str, constant_pool: &ConstantPool) -> (r: Option<&Attribute>)
        requires
            names_in_pool(constant_pool, self@),
        ensures
            match r {
                Some(a) => exists|i: int|
                    first_named(constant_pool, self@, name@, i) && a@ == #[trigger] self@[i],
                None => forall|i: int|
                    0 <= i < self@.len() ==> !attribute_named(
                        constant_pool,
                        #[trigger] self@[i],
                        name@,
                    ),
            },
    {
        let mut i: usize = 0;
        while i < self.0.len()
            invariant
                names_in_pool(constant_pool, self@),
                self@.len() == self.0@.len(),
                i <= self.0@.len(),
                forall|j: int| 0 <= j < i ==> !attribute_named(constant_pool, #[trigger] self@[j], name@),
            decreases self.0@.len() - i,
        {
            let a = &self.0[i];
            assert(self@[i as int] == a@);
            assert(constant_pool.valid_index(self@[i as int].name_index));
            if let CpInfo::Utf8(s) = constant_pool.index(a.attribute_name_index) {
                if text_equal(s.as_str(), name) {
                    assert(first_named(constant_pool, self@, name@, i as int));
                    return Some(a);
                }
            }
            i = i + 1;
        }
        None
    }

    /// The `Code` attribute decoded from its body, if there is an attribute
    /// named `Code` and the body of the first one decodes.
    pub fn code_attribute(&self, constant_pool: &ConstantPool) -> (r: Option<CodeAttribute>)
        requires
            names_in_pool(constant_pool, self@),
        ensures
            match r {
                Some(c) => exists|i: int|
                    first_named(constant_pool, self@, "Code"@, i) && (
                    #[trigger] sp_code(self@[i].info, 0) matches Ok((v, _)) && v == c@),
                None => forall|i: int|
                    first_named(constant_pool, self@, "Code"@, i) ==> (#[trigger] sp_code(
                        self@[i].info,
                        0,
                    )) is Err,
            },
    {
        let a = self.find_by_name("Code", constant_pool)?;
        let ghost i = choose|i: int| first_named(constant_pool, self@, "Code"@, i) && a@ == self@[i];
        proof {
            assert forall|k: int| first_named(constant_pool, self@, "Code"@, k) implies k == i by {
                if k < i {
                    assert(!attribute_named(constant_pool, self@[k], "Code"@));
                }
                if i < k {
                    assert(!attribute_named(constant_pool, self@[i], "Code"@));
                }
            }
        }
        let mut parser = Parser::new(a.info.as_slice());
        match parser.parse_code_attribute() {
            Ok(c) => {
                assert(sp_code(self@[i].info, 0) matches Ok((v, _)) && v == c@);
                Some(c)
            },
            Err(_) => None,
        }
    }
}

impl ClassFile {
    /// Decodes the class file in `bytes`.
    pub fn parse(bytes: &[u8]) -> (r: Result<ClassFile, ClassFileError>)
        ensures
            match r {
                Ok(c) => sp_class_file(bytes@, 0) matches Ok((v, _)) && v == c@,
                Err(e) => sp_class_file(bytes@, 0) == Err::<(ClassFileView, int), ClassFileError>(e),
            },
            r matches Ok(c) ==> wide_slots_paired(c.constant_pool@),
    {
        let mut parser = Parser::new(bytes);
        let r = parser.parse();
        proof {
            crate::class_parser::lemma_class_pool_paired(bytes@, 0);
        }
        r
    }
}

} // verus!
