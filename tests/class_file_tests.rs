use jvm_formats::access_flags::{FINAL, PRIVATE, PUBLIC};
use jvm_formats::class_file::CodeAttribute;
use jvm_formats::constant_pool::{CpInfo, FloatValue};
use jvm_formats::{ClassFile, ClassFileError, Parser};

fn u16be(out: &mut Vec<u8>, v: u16) {
    out.extend_from_slice(&v.to_be_bytes());
}

fn u32be(out: &mut Vec<u8>, v: u32) {
    out.extend_from_slice(&v.to_be_bytes());
}

fn utf8(out: &mut Vec<u8>, s: &str) {
    out.push(1);
    u16be(out, s.len() as u16);
    out.extend_from_slice(s.as_bytes());
}

fn code_body(max_stack: u16, max_locals: u16, code: &[u8]) -> Vec<u8> {
    let mut b = Vec::new();
    u16be(&mut b, max_stack);
    u16be(&mut b, max_locals);
    u32be(&mut b, code.len() as u32);
    b.extend_from_slice(code);
    u16be(&mut b, 0);
    u16be(&mut b, 0);
    b
}

/// The class file that `javac` emits for
/// `package my; class MyClass { private final int myField; public float add(int x) {...} }`,
/// reduced to what the tests read, plus a float and a long constant.
fn my_class_bytes() -> Vec<u8> {
    let mut b = Vec::new();
    u32be(&mut b, 0xCAFE_BABE);
    u16be(&mut b, 0);
    u16be(&mut b, 61);
    u16be(&mut b, 19);
    // #1 Methodref java/lang/Object."<init>":()V
    b.push(10);
    u16be(&mut b, 2);
    u16be(&mut b, 3);
    // #2 Class java/lang/Object
    b.push(7);
    u16be(&mut b, 4);
    // #3 NameAndType <init>:()V
    b.push(12);
    u16be(&mut b, 5);
    u16be(&mut b, 6);
    utf8(&mut b, "java/lang/Object"); // #4
    utf8(&mut b, "<init>"); // #5
    utf8(&mut b, "()V"); // #6
    // #7 Class my/MyClass
    b.push(7);
    u16be(&mut b, 8);
    utf8(&mut b, "my/MyClass"); // #8
    utf8(&mut b, "myField"); // #9
    utf8(&mut b, "I"); // #10
    utf8(&mut b, "Code"); // #11
    utf8(&mut b, "add"); // #12
    utf8(&mut b, "(I)F"); // #13
    // #14 Float 1.5
    b.push(4);
    u32be(&mut b, 0x3fc0_0000);
    // #15 Long 42 (and unusable #16)
    b.push(5);
    u32be(&mut b, 0);
    u32be(&mut b, 42);
    utf8(&mut b, "SourceFile"); // #17
    utf8(&mut b, "MyClass.java"); // #18
    u16be(&mut b, 0x0020);
    u16be(&mut b, 7);
    u16be(&mut b, 2);
    u16be(&mut b, 0);
    // fields
    u16be(&mut b, 1);
    u16be(&mut b, FINAL | PRIVATE);
    u16be(&mut b, 9);
    u16be(&mut b, 10);
    u16be(&mut b, 0);
    // methods
    u16be(&mut b, 2);
    for (flags, name, desc, stack, code) in [
        (0u16, 5u16, 6u16, 1u16, vec![0x2a, 0xb7, 0x00, 0x01, 0xb1]),
        (PUBLIC, 12, 13, 2, vec![0x1b, 0x86, 0xae]),
    ] {
        u16be(&mut b, flags);
        u16be(&mut b, name);
        u16be(&mut b, desc);
        u16be(&mut b, 1);
        let body = code_body(stack, 2, &code);
        u16be(&mut b, 11);
        u32be(&mut b, body.len() as u32);
        b.extend_from_slice(&body);
    }
    // attributes
    u16be(&mut b, 1);
    u16be(&mut b, 17);
    u32be(&mut b, 2);
    u16be(&mut b, 18);
    b
}

fn with_class_file(f: impl FnOnce(ClassFile)) {
    let bytes = my_class_bytes();
    f(Parser::new(&bytes).parse().unwrap());
}

#[test]
fn test_super_class() {
    with_class_file(|class_file| {
        assert_eq!(Some("java/lang/Object"), class_file.super_class().unwrap())
    });
}

#[test]
fn test_class_name() {
    with_class_file(|class_file| assert_eq!("my/MyClass", class_file.class_name().unwrap()));
}

#[test]
fn test_field_name() {
    with_class_file(|class_file| {
        assert_eq!(
            "myField",
            class_file.field_name(&class_file.fields[0]).unwrap()
        )
    });
}

#[test]
fn test_int_field_type() {
    with_class_file(|class_file| {
        assert_eq!(
            "I",
            class_file.field_descriptor(&class_file.fields[0]).unwrap()
        )
    });
}

#[test]
fn test_field_access_flags() {
    with_class_file(|class_file| {
        assert_eq!(FINAL | PRIVATE, class_file.fields[0].access_flags)
    });
}

#[test]
fn test_constructor_name() {
    with_class_file(|class_file| {
        assert_eq!(
            "<init>",
            class_file.method_name(&class_file.methods[0]).unwrap()
        )
    });
}

#[test]
fn test_constructor_descriptor() {
    with_class_file(|class_file| {
        assert_eq!(
            "()V",
            class_file
                .method_descriptor(&class_file.methods[0])
                .unwrap()
        )
    });
}

#[test]
fn test_method_name() {
    with_class_file(|class_file| {
        assert_eq!(
            "add",
            class_file.method_name(&class_file.methods[1]).unwrap()
        )
    });
}

#[test]
fn test_method_descriptor() {
    with_class_file(|class_file| {
        assert_eq!(
            "(I)F",
            class_file
                .method_descriptor(&class_file.methods[1])
                .unwrap()
        )
    });
}

#[test]
fn test_method_access_flags() {
    with_class_file(|class_file| assert_eq!(PUBLIC, class_file.methods[1].access_flags));
}

#[test]
fn parse_through_class_file_entry_point() {
    let bytes = my_class_bytes();
    let class_file = ClassFile::parse(&bytes).unwrap();
    assert_eq!(class_file.constant_pool.len(), 18);
    assert_eq!(class_file.this_class, 7);
    assert_eq!(class_file.super_class, 2);
    assert!(class_file.interfaces.is_empty());
    assert_eq!(class_file.attributes.0.len(), 1);
    assert_eq!(class_file.attributes.0[0].info, vec![0x00, 0x12]);
}

#[test]
fn long_takes_two_slots() {
    let bytes = my_class_bytes();
    let class_file = ClassFile::parse(&bytes).unwrap();
    assert!(matches!(class_file.constant_pool.index(15), CpInfo::Long(42)));
    assert!(matches!(class_file.constant_pool.index(16), CpInfo::Unusable));
    assert!(matches!(class_file.constant_pool.index(17), CpInfo::Utf8(s) if s == "SourceFile"));
}

#[test]
fn float_constant_decodes() {
    let bytes = my_class_bytes();
    let class_file = ClassFile::parse(&bytes).unwrap();
    assert!(matches!(
        class_file.constant_pool.index(14),
        CpInfo::Float(FloatValue::Finite { negative: false, mantissa: 0xc0_0000, exponent: -23 })
    ));
}

#[test]
fn float_bits_follow_the_format() {
    assert_eq!(FloatValue::from_float_bits(0x7f80_0000), FloatValue::PositiveInfinity);
    assert_eq!(FloatValue::from_float_bits(0xff80_0000), FloatValue::NegativeInfinity);
    assert_eq!(FloatValue::from_float_bits(0x7fc0_0000), FloatValue::NaN);
    assert_eq!(FloatValue::from_float_bits(0xffff_ffff), FloatValue::NaN);
    assert_eq!(
        FloatValue::from_float_bits(0xbf80_0000),
        FloatValue::Finite { negative: true, mantissa: 0x80_0000, exponent: -23 }
    );
    assert_eq!(
        FloatValue::from_float_bits(0x0000_0001),
        FloatValue::Finite { negative: false, mantissa: 2, exponent: -150 }
    );
    let v = 1.5f32;
    match FloatValue::from_float_bits(v.to_bits()) {
        FloatValue::Finite { negative, mantissa, exponent } => {
            let x = (mantissa as f64) * 2f64.powi(exponent);
            assert!(!negative);
            assert_eq!(x, 1.5f64);
        }
        other => panic!("unexpected {:?}", other),
    }
}

#[test]
fn double_bits_follow_the_format() {
    assert_eq!(FloatValue::from_double_bits(0x7ff0_0000_0000_0000), FloatValue::PositiveInfinity);
    assert_eq!(FloatValue::from_double_bits(0xfff0_0000_0000_0000), FloatValue::NegativeInfinity);
    assert_eq!(FloatValue::from_double_bits(0x7ff8_0000_0000_0000), FloatValue::NaN);
    assert_eq!(
        FloatValue::from_double_bits(2.0f64.to_bits()),
        FloatValue::Finite { negative: false, mantissa: 0x10_0000_0000_0000, exponent: -51 }
    );
}

#[test]
fn double_constant_takes_two_slots() {
    let mut b = Vec::new();
    u32be(&mut b, 0xCAFE_BABE);
    u32be(&mut b, 0);
    u16be(&mut b, 3);
    b.push(6);
    b.extend_from_slice(&(-0.5f64).to_bits().to_be_bytes());
    b.extend_from_slice(&[0; 8]);
    b.extend_from_slice(&[0; 6]);
    let class_file = ClassFile::parse(&b).unwrap();
    assert_eq!(class_file.constant_pool.len(), 2);
    assert!(matches!(
        class_file.constant_pool.index(1),
        CpInfo::Double(FloatValue::Finite { negative: true, mantissa: 0x10_0000_0000_0000, exponent: -53 })
    ));
    assert!(matches!(class_file.constant_pool.index(2), CpInfo::Unusable));
}

#[test]
fn wrong_magic_is_rejected() {
    let mut bytes = my_class_bytes();
    bytes[3] = 0xBF;
    assert!(matches!(
        ClassFile::parse(&bytes),
        Err(ClassFileError::InvalidMagicIdentifier(0xCAFE_BABF))
    ));
}

#[test]
fn unknown_tag_is_rejected() {
    let mut b = Vec::new();
    u32be(&mut b, 0xCAFE_BABE);
    u32be(&mut b, 0);
    u16be(&mut b, 2);
    b.push(2);
    assert!(matches!(ClassFile::parse(&b), Err(ClassFileError::InvalidCpInfoTag(2))));
}

#[test]
fn every_truncation_is_an_io_error() {
    let bytes = my_class_bytes();
    for n in 0..bytes.len() {
        assert!(
            matches!(ClassFile::parse(&bytes[..n]), Err(ClassFileError::IOError)),
            "prefix of {} bytes",
            n
        );
    }
    assert!(ClassFile::parse(&bytes).is_ok());
}

#[test]
fn wrong_variant_is_reported() {
    with_class_file(|class_file| {
        let field = jvm_formats::class_file::FieldInfo {
            access_flags: 0,
            name_index: 7,
            descriptor_index: 14,
            attributes: jvm_formats::class_file::Attributes(Vec::new()),
        };
        match class_file.field_name(&field) {
            Err(ClassFileError::UnexpectedConstantPoolEntry(expected, found)) => {
                assert_eq!(expected, "Utf8");
                assert!(matches!(found, CpInfo::Class(c) if c.name_index == 8));
            }
            other => panic!("unexpected {:?}", other),
        }
    });
}

#[test]
fn object_has_no_superclass() {
    let bytes = my_class_bytes();
    let mut class_file = ClassFile::parse(&bytes).unwrap();
    class_file.super_class = 0;
    assert_eq!(class_file.super_class().unwrap(), None);
}

#[test]
fn code_attribute_of_add() {
    with_class_file(|class_file| {
        let attrs = &class_file.methods[1].attributes;
        let found = attrs.find_by_name("Code", &class_file.constant_pool).unwrap();
        assert_eq!(found.attribute_name_index, 11);
        assert!(attrs.find_by_name("LineNumberTable", &class_file.constant_pool).is_none());
        let code: CodeAttribute = attrs.code_attribute(&class_file.constant_pool).unwrap();
        assert_eq!(code.max_stack, 2);
        assert_eq!(code.max_locals, 2);
        assert_eq!(code.code, vec![0x1b, 0x86, 0xae]);
        assert!(code.exception_table.is_empty());
        assert!(code.attributes.0.is_empty());
    });
}

#[test]
fn code_attribute_with_exception_table() {
    let mut body = Vec::new();
    u16be(&mut body, 3);
    u16be(&mut body, 1);
    u32be(&mut body, 1);
    body.push(0xb1);
    u16be(&mut body, 1);
    for v in [0u16, 1, 1, 7] {
        u16be(&mut body, v);
    }
    u16be(&mut body, 0);
    let code = Parser::new(&body).parse_code_attribute().unwrap();
    assert_eq!(code.max_stack, 3);
    assert_eq!(code.exception_table.len(), 1);
    assert_eq!(code.exception_table[0].catch_type, 7);
    assert_eq!(code.exception_table[0].end_pc, 1);
    assert!(Parser::new(&body[..body.len() - 1]).parse_code_attribute().is_err());
}

#[test]
fn invalid_utf8_is_replaced() {
    let mut b = Vec::new();
    u32be(&mut b, 0xCAFE_BABE);
    u32be(&mut b, 0);
    u16be(&mut b, 2);
    b.push(1);
    u16be(&mut b, 3);
    b.extend_from_slice(&[b'a', 0xff, b'b']);
    b.extend_from_slice(&[0; 14]);
    let class_file = ClassFile::parse(&b).unwrap();
    assert!(matches!(class_file.constant_pool.index(1), CpInfo::Utf8(s) if s == "a\u{fffd}b"));
}

fn class_with_pool(count: u16, entries: &[u8]) -> Vec<u8> {
    let mut b = Vec::new();
    u32be(&mut b, 0xCAFE_BABE);
    u32be(&mut b, 0);
    u16be(&mut b, count);
    b.extend_from_slice(entries);
    b.extend_from_slice(&[0; 14]);
    b
}

#[test]
fn pool_count_of_zero_is_rejected() {
    let b = class_with_pool(0, &[]);
    assert!(matches!(ClassFile::parse(&b), Err(ClassFileError::InvalidConstantPoolCount(0))));
}

#[test]
fn long_in_last_slot_is_rejected() {
    let b = class_with_pool(2, &[5, 0, 0, 0, 0, 0, 0, 0, 1]);
    assert!(matches!(ClassFile::parse(&b), Err(ClassFileError::InvalidConstantPoolCount(2))));
    let ok = class_with_pool(3, &[5, 0, 0, 0, 0, 0, 0, 0, 1]);
    assert_eq!(ClassFile::parse(&ok).unwrap().constant_pool.len(), 2);
}

#[test]
fn negative_long_and_integer() {
    let b = class_with_pool(
        4,
        &[5, 0xFF, 0xFF, 0xFF, 0xFF, 0xFF, 0xFF, 0xFF, 0xFE, 3, 0x80, 0, 0, 0],
    );
    let class_file = ClassFile::parse(&b).unwrap();
    assert!(matches!(class_file.constant_pool.index(1), CpInfo::Long(-2)));
    assert!(matches!(class_file.constant_pool.index(2), CpInfo::Unusable));
    assert!(matches!(class_file.constant_pool.index(3), CpInfo::Integer(i32::MIN)));
}
