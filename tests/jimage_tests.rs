use jvm_formats::archive::{hash, AttributeKind, Parser, HASH_MULTIPLIER};
use jvm_formats::bytes::Endian;
use jvm_formats::{Archive, JImageError};

/// A resource to store in a test archive: module, parent, base, extension, payload.
struct Entry {
    module: &'static str,
    parent: &'static str,
    base: &'static str,
    extension: &'static str,
    payload: &'static [u8],
}

fn push_u32(out: &mut Vec<u8>, v: u32) {
    out.extend_from_slice(&v.to_ne_bytes());
}

fn full_name(e: &Entry) -> String {
    let mut s = String::new();
    if !e.module.is_empty() {
        s += &format!("/{}/", e.module);
    }
    if !e.parent.is_empty() {
        s += &format!("{}/", e.parent);
    }
    s += e.base;
    if !e.extension.is_empty() {
        s += &format!(".{}", e.extension);
    }
    s
}

fn attribute(out: &mut Vec<u8>, kind: u8, value: u64) {
    let bytes = value.to_be_bytes();
    let skip = bytes.iter().take_while(|b| **b == 0).count().min(7);
    let value_bytes = &bytes[skip..];
    out.push((kind << 3) | (value_bytes.len() as u8 - 1));
    out.extend_from_slice(value_bytes);
}

/// Builds an archive in this machine's byte order whose redirect table points
/// each entry's bucket straight at its slot; one extra slot stays empty.
fn build_archive(entries: &[Entry]) -> Vec<u8> {
    let slots = entries.len() as u32 + 1;
    let table_length = (slots..)
        .find(|n| {
            let mut buckets: Vec<u32> = entries
                .iter()
                .map(|e| hash(&full_name(e), HASH_MULTIPLIER) as u32 % n)
                .collect();
            buckets.sort();
            buckets.dedup();
            buckets.len() == entries.len()
        })
        .unwrap();
    let mut strings: Vec<u8> = vec![0];
    let mut intern = |s: &str| -> u64 {
        if s.is_empty() {
            return 0;
        }
        let at = strings.len() as u64;
        strings.extend_from_slice(s.as_bytes());
        strings.push(0);
        at
    };
    let mut attribute_data: Vec<u8> = vec![0];
    let mut offsets = vec![0u32; table_length as usize];
    let mut redirects = vec![0i32; table_length as usize];
    let mut payload: Vec<u8> = Vec::new();
    for (slot, e) in entries.iter().enumerate() {
        let bucket = hash(&full_name(e), HASH_MULTIPLIER) as u32 % table_length;
        redirects[bucket as usize] = -1 - slot as i32;
        offsets[slot] = attribute_data.len() as u32;
        let m = intern(e.module);
        let p = intern(e.parent);
        let b = intern(e.base);
        let x = intern(e.extension);
        attribute(&mut attribute_data, 1, m);
        attribute(&mut attribute_data, 2, p);
        attribute(&mut attribute_data, 3, b);
        attribute(&mut attribute_data, 4, x);
        attribute(&mut attribute_data, 5, payload.len() as u64);
        attribute(&mut attribute_data, 7, e.payload.len() as u64);
        attribute_data.push(0);
        payload.extend_from_slice(e.payload);
    }
    let mut out = Vec::new();
    push_u32(&mut out, 0xCAFE_DADA);
    out.extend_from_slice(&0u16.to_ne_bytes());
    out.extend_from_slice(&1u16.to_ne_bytes());
    push_u32(&mut out, 0);
    push_u32(&mut out, entries.len() as u32);
    push_u32(&mut out, table_length);
    push_u32(&mut out, attribute_data.len() as u32);
    push_u32(&mut out, strings.len() as u32);
    for r in &redirects {
        out.extend_from_slice(&r.to_ne_bytes());
    }
    for o in &offsets {
        push_u32(&mut out, *o);
    }
    out.extend_from_slice(&attribute_data);
    out.extend_from_slice(&strings);
    out.extend_from_slice(&payload);
    out
}

fn sample_entries() -> Vec<Entry> {
    vec![
        Entry {
            module: "java.base",
            parent: "java/lang",
            base: "Object",
            extension: "class",
            payload: b"object bytes",
        },
        Entry {
            module: "java.base",
            parent: "",
            base: "module-info",
            extension: "class",
            payload: b"module info",
        },
        Entry { module: "", parent: "", base: "packages", extension: "", payload: b"" },
    ]
}

fn with_archive(f: impl FnOnce(Archive)) {
    let bytes = build_archive(&sample_entries());
    f(Archive::parse(&bytes).unwrap());
}

#[test]
fn it_should_be_able_to_parse_the_correct_identifier() {
    assert!(Parser::new(&[0xda, 0xda, 0xfe, 0xca], Endian::Little)
        .parse_magic_identifier()
        .is_ok());
}

#[test]
fn it_should_fail_if_there_is_not_enough_data() {
    assert!(Parser::new(&[0xca, 0xfe, 0xda], Endian::Little)
        .parse_magic_identifier()
        .is_err());
}

#[test]
fn it_should_fail_if_the_magic_identifier_is_incorrect() {
    assert!(Parser::new(&[0xda, 0xda, 0xfe, 0xcb], Endian::Little)
        .parse_magic_identifier()
        .is_err());
}

#[test]
fn it_should_be_able_to_parse_a_version() {
    assert_eq!(
        Parser::new(&[0x34, 0x12, 0x78, 0x56], Endian::Little)
            .parse_version()
            .unwrap(),
        (0x5678, 0x1234)
    );
}

#[test]
fn it_should_be_able_to_parse_an_attribute() {
    assert_eq!(
        Parser::new(&[0x22, 0x03, 0x35, 0x62], Endian::Little)
            .parse_attribute()
            .unwrap(),
        Some((AttributeKind::Extension, 0x33562))
    );
}

#[test]
fn it_should_fail_if_there_are_not_enough_bytes_read() {
    assert!(Parser::new(&[0x22, 0x03, 0x35], Endian::Little)
        .parse_attribute()
        .is_err());
}

#[test]
fn test_read_resource() {
    with_archive(|archive| {
        let object_class = archive
            .by_name("/java.base/java/lang/Object.class")
            .unwrap();

        assert_eq!("java.base", object_class.module());
        assert_eq!("class", object_class.extension());
        assert_eq!("java/lang", object_class.parent());
        assert_eq!("Object", object_class.base());
        assert_eq!(
            "/java.base/java/lang/Object.class",
            object_class.full_name()
        );
    });
}

#[test]
fn test_resource_without_parent() {
    with_archive(|archive| {
        let module_info = archive.by_name("/java.base/module-info.class").unwrap();

        assert_eq!("java.base", module_info.module());
        assert_eq!("class", module_info.extension());
        assert_eq!("", module_info.parent());
        assert_eq!("module-info", module_info.base());
        assert_eq!("/java.base/module-info.class", module_info.full_name());
    });
}

#[test]
fn magic_in_both_byte_orders() {
    assert!(Parser::new(&[0xca, 0xfe, 0xda, 0xda], Endian::Big)
        .parse_magic_identifier()
        .is_ok());
    assert_eq!(
        Parser::new(&[0xca, 0xfe, 0xda, 0xdb], Endian::Big).parse_magic_identifier(),
        Err(JImageError::InvalidMagicIdentifier(0xCAFE_DADB))
    );
}

#[test]
fn attribute_terminator_and_bad_kind() {
    assert_eq!(Parser::new(&[0x07], Endian::Little).parse_attribute(), Ok(None));
    assert_eq!(
        Parser::new(&[0x40, 0x01], Endian::Little).parse_attribute(),
        Err(JImageError::InvalidAttributeKind(8))
    );
    assert_eq!(Parser::new(&[], Endian::Little).parse_attribute(), Err(JImageError::IOError));
}

#[test]
fn attribute_of_eight_bytes() {
    let bytes = [0x2f, 1, 2, 3, 4, 5, 6, 7, 8];
    assert_eq!(
        Parser::new(&bytes, Endian::Big).parse_attribute(),
        Ok(Some((AttributeKind::Offset, 0x0102_0304_0506_0708)))
    );
}

#[test]
fn later_attribute_overwrites_earlier() {
    let bytes = [0x28, 0x05, 0x28, 0x09, 0x38, 0x02, 0x00];
    let slots = Parser::new(&bytes, Endian::Little).parse_attributes().unwrap();
    assert_eq!(slots, [0, 0, 0, 0, 9, 0, 2]);
}

#[test]
fn header_fields_and_sizes() {
    with_archive(|archive| {
        let h = archive.header();
        assert_eq!(h.version, (1, 0));
        assert_eq!(h.resource_count, 3);
        let t = h.table_length as usize;
        assert_eq!(h.redirect_table_size(), 4 * t);
        assert_eq!(h.attribute_offsets_size(), 4 * t);
        assert_eq!(
            h.index_size(),
            28 + 8 * t + h.attributes_size as usize + h.strings_size as usize
        );
    });
}

#[test]
fn truncated_archive_is_an_io_error() {
    let bytes = build_archive(&sample_entries());
    let h = Archive::parse(&bytes).unwrap().header().index_size();
    assert_eq!(Archive::parse(&bytes[..h - 1]).err(), Some(JImageError::IOError));
    assert_eq!(Archive::parse(&bytes[..3]).err(), Some(JImageError::IOError));
    assert!(Archive::parse(&bytes[..h]).is_ok());
    let mut wrong = bytes.clone();
    wrong[0] ^= 0xff;
    assert!(matches!(
        Archive::parse(&wrong).err(),
        Some(JImageError::InvalidMagicIdentifier(_))
    ));
}

#[test]
fn hash_is_never_negative() {
    for s in ["", "a", "/java.base/java/lang/Object.class", "\u{7f}\u{7f}\u{7f}", "zzzzzzzzzzzzzz"] {
        assert!(hash(s, HASH_MULTIPLIER) >= 0);
        assert!(hash(s, -1) >= 0);
    }
}

#[test]
fn hash_exact_values() {
    assert_eq!(hash("", HASH_MULTIPLIER), 0x0100_0193);
    assert_eq!(hash("", -1), 0x7fff_ffff);
    let expected = ((0x0100_0193u32.wrapping_mul(0x0100_0193)) ^ 0x61) & 0x7fff_ffff;
    assert_eq!(hash("a", HASH_MULTIPLIER), expected as i32);
}

#[test]
fn every_listed_resource_is_found_by_name() {
    with_archive(|archive| {
        let mut it = archive.resources();
        let mut names = Vec::new();
        while let Some(r) = it.next() {
            let r = r.unwrap();
            let name = r.full_name();
            if name.is_empty() {
                continue;
            }
            let found = archive.by_name(&name).unwrap();
            assert_eq!(found.full_name(), name);
            assert_eq!(found.offset(), r.offset());
            names.push(name);
        }
        names.sort();
        assert_eq!(
            names,
            vec![
                "/java.base/java/lang/Object.class".to_string(),
                "/java.base/module-info.class".to_string(),
                "packages".to_string(),
            ]
        );
    });
}

#[test]
fn empty_bucket_means_absent() {
    with_archive(|archive| {
        let mut tried = 0;
        for i in 0..200 {
            let path = format!("/missing/{}.class", i);
            assert!(archive.by_name(&path).is_none());
            tried += 1;
        }
        assert_eq!(tried, 200);
    });
}

#[test]
fn near_miss_paths_are_rejected() {
    with_archive(|archive| {
        assert!(archive.by_name("/java.base/java/lang/Object.clas").is_none());
        assert!(archive.by_name("java.base/java/lang/Object.class").is_none());
        assert!(archive.by_name("/java.base/java/lang/Object").is_none());
        assert!(archive.by_name("").is_none());
    });
}

#[test]
fn verify_accepts_full_name_only() {
    with_archive(|archive| {
        let r = archive.by_name("/java.base/module-info.class").unwrap();
        assert!(Archive::verify(&r, &r.full_name()));
        assert!(Archive::verify(&r, "/java.base/module-info.class"));
        assert!(!Archive::verify(&r, "/java.base//module-info.class"));
        assert!(!Archive::verify(&r, "/java.base/module-info.classx"));
    });
}

#[test]
fn resource_payload_bytes() {
    with_archive(|archive| {
        let r = archive.by_name("/java.base/java/lang/Object.class").unwrap();
        assert_eq!(r.bytes(), Some(&b"object bytes"[..]));
        let m = archive.by_name("/java.base/module-info.class").unwrap();
        assert_eq!(m.bytes(), Some(&b"module info"[..]));
        assert_eq!(m.offset(), 12);
    });
}

#[test]
fn resource_without_module() {
    with_archive(|archive| {
        let p = archive.by_name("packages").unwrap();
        assert_eq!(p.module(), "");
        assert_eq!(p.base(), "packages");
        assert_eq!(p.full_name(), "packages");
        assert_eq!(p.bytes(), Some(&b""[..]));
    });
}

#[test]
fn empty_slot_yields_blank_resource() {
    with_archive(|archive| {
        let mut it = archive.resources();
        let mut blanks = 0;
        while let Some(r) = it.next() {
            if r.unwrap().full_name().is_empty() {
                blanks += 1;
            }
        }
        assert!(blanks >= 1);
    });
}

#[test]
fn native_byte_order_matches_machine() {
    let expected = if u16::from_ne_bytes([1, 0]) == 1 { Endian::Little } else { Endian::Big };
    assert_eq!(Endian::native(), expected);
}

#[test]
fn header_info_text() {
    with_archive(|archive| {
        let h = archive.header();
        let t = h.table_length as usize;
        let expected = format!(
            " Major Version:  1\n Minor Version:  0\n Flags:          0\n Resource Count: 3\n Table Length:   {}\n Offsets Size:   {}\n Redirects Size: {}\n Locations Size: {}\n Strings Size:   {}\n Index Size:     {}\n",
            t,
            4 * t,
            4 * t,
            h.attributes_size,
            h.strings_size,
            h.index_size()
        );
        assert_eq!(archive.header().info_text(), expected);
    });
}

#[test]
fn malformed_attribute_stream_is_reported() {
    let mut bytes = build_archive(&sample_entries());
    let table_length = Archive::parse(&bytes).unwrap().header().table_length as usize;
    let stream_of_first = 28 + 8 * table_length + 1;
    assert_eq!(bytes[stream_of_first], 0x08);
    bytes[stream_of_first] = 0x40;
    let archive = Archive::parse(&bytes).unwrap();
    assert!(archive.by_name("/java.base/java/lang/Object.class").is_none());
    let mut it = archive.resources();
    match it.next() {
        Some(Err(e)) => assert_eq!(e, JImageError::InvalidAttributeKind(8)),
        _ => panic!("the first slot should fail to decode"),
    }
    assert!(matches!(it.next(), Some(Ok(_))));
}

#[test]
fn hash_with_other_seeds() {
    assert_eq!(hash("a", 0), 0x61);
    assert_eq!(hash("a", HASH_MULTIPLIER), 0x2602_7A08);
}
