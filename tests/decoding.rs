use classfile_parser::classfile_parser::{ClassfileParser, ErrorKind, Header};
use classfile_parser::constant_pool::CpEntry;

fn with_header(cp_count: u16, pool: &[u8]) -> Vec<u8> {
    let mut v = vec![0xCA, 0xFE, 0xBA, 0xBE, 0x00, 0x03, 0x00, 0x34];
    v.push((cp_count >> 8) as u8);
    v.push(cp_count as u8);
    v.extend_from_slice(pool);
    v
}

fn decode_kind(bytes: Vec<u8>) -> ErrorKind {
    let mut p = ClassfileParser::of("Test.class".to_string(), bytes);
    match p.parse() {
        Ok(_) => panic!("decoding succeeded"),
        Err(e) => {
            assert_eq!(e.filename, "Test.class");
            e.kind
        }
    }
}

#[test]
fn single_class_entry() {
    let bytes = vec![0xCA, 0xFE, 0xBA, 0xBE, 0x00, 0x00, 0x00, 0x34, 0x00, 0x02, 0x07, 0x00, 0x01];
    let mut p = ClassfileParser::of("A.class".to_string(), bytes);
    let c = p.parse().unwrap();
    assert_eq!(c.header.minor_version, 0);
    assert_eq!(c.header.major_version, 52);
    assert_eq!(c.constant_pool.slot_count(), 2);
    assert_eq!(c.constant_pool.get(0), None);
    assert_eq!(c.constant_pool.get(1), Some(&CpEntry::Class { name_index: 1 }));
    assert_eq!(c.constant_pool.get(2), None);
    assert_eq!(p.position(), 13);
}

#[test]
fn header_versions() {
    let bytes = vec![0xCA, 0xFE, 0xBA, 0xBE, 0x01, 0x02, 0x00, 0x3D, 0x00, 0x01];
    let mut p = ClassfileParser::of("A.class".to_string(), bytes);
    let h = p.parse_header().unwrap();
    assert_eq!(
        h,
        Header { minor_version: 0x0102, major_version: 61, constant_pool_count: 1 }
    );
    assert_eq!(p.position(), 10);
    let mut p2 = ClassfileParser::of("A.class".to_string(), with_header(1, &[]));
    let c = p2.parse().unwrap();
    assert_eq!(c.header.minor_version, 3);
    assert_eq!(c.header.major_version, 52);
    assert_eq!(c.constant_pool.slot_count(), 1);
}

#[test]
fn magic_mutations_rejected() {
    let good = with_header(1, &[]);
    for i in 0..4 {
        for v in [0x00u8, 0xFF, good[i] ^ 1] {
            let mut b = good.clone();
            b[i] = v;
            let expected = u32::from_be_bytes([b[0], b[1], b[2], b[3]]);
            assert_eq!(decode_kind(b), ErrorKind::InvalidMagicNumber { found: expected });
        }
    }
}

#[test]
fn unsupported_tag() {
    assert_eq!(
        decode_kind(with_header(2, &[99])),
        ErrorKind::UnsupportedConstantPoolTag { tag: 99, slot: 1, offset: 10 }
    );
    assert_eq!(
        decode_kind(with_header(4, &[0x07, 0x00, 0x01, 0x07, 0x00, 0x02, 99])),
        ErrorKind::UnsupportedConstantPoolTag { tag: 99, slot: 3, offset: 16 }
    );
    assert_eq!(
        decode_kind(with_header(3, &[0x07, 0x00, 0x01, 15, 0x00, 0x01])),
        ErrorKind::UnsupportedConstantPoolTag { tag: 15, slot: 2, offset: 13 }
    );
}

#[test]
fn long_takes_two_slots() {
    let pool = [0x05, 0xFF, 0xFF, 0xFF, 0xFF, 0xFF, 0xFF, 0xFF, 0xFE];
    let mut p = ClassfileParser::of("L.class".to_string(), with_header(3, &pool));
    let c = p.parse().unwrap();
    assert_eq!(c.constant_pool.slot_count(), 3);
    assert_eq!(c.constant_pool.get(1), Some(&CpEntry::Long(-2)));
    assert_eq!(c.constant_pool.get(2), None);
    let filled = (0..c.constant_pool.slot_count())
        .filter(|i| c.constant_pool.get(*i).is_some())
        .count();
    assert_eq!(filled, 1);
}

#[test]
fn wide_entries_keep_logical_indices() {
    let pool = [
        0x06, 0x3F, 0xF0, 0x00, 0x00, 0x00, 0x00, 0x00, 0x00, // slots 1-2: 1.0
        0x05, 0x00, 0x00, 0x00, 0x01, 0x00, 0x00, 0x00, 0x02, // slots 3-4
        0x08, 0x00, 0x06, // slot 5
        0x01, 0x00, 0x02, b'h', b'i', // slot 6
    ];
    let mut p = ClassfileParser::of("W.class".to_string(), with_header(7, &pool));
    let c = p.parse().unwrap();
    let cp = &c.constant_pool;
    assert_eq!(cp.slot_count(), 7);
    assert_eq!(cp.get(1), Some(&CpEntry::Double(1.0f64.to_bits())));
    assert_eq!(cp.get(2), None);
    assert_eq!(cp.get(3), Some(&CpEntry::Long(0x1_0000_0002)));
    assert_eq!(cp.get(4), None);
    assert_eq!(cp.get(5), Some(&CpEntry::String { string_index: 6 }));
    assert_eq!(cp.get(6), Some(&CpEntry::Utf8("hi".to_string())));
    assert_eq!(cp.get(7), None);
}

#[test]
fn long_in_last_slot() {
    let pool = [0x05, 0, 0, 0, 0, 0, 0, 0, 7];
    let mut p = ClassfileParser::of("L.class".to_string(), with_header(2, &pool));
    let c = p.parse().unwrap();
    assert_eq!(c.constant_pool.slot_count(), 3);
    assert_eq!(c.constant_pool.get(1), Some(&CpEntry::Long(7)));
}

#[test]
fn narrow_entries_round_trip() {
    let pool = [
        0x01, 0x00, 0x03, b'a', b'b', b'c', // 1
        0x03, 0x80, 0x00, 0x00, 0x00, // 2
        0x04, 0x40, 0x49, 0x0F, 0xDB, // 3
        0x07, 0x00, 0x01, // 4
        0x08, 0x00, 0x01, // 5
        0x09, 0x00, 0x04, 0x00, 0x08, // 6
        0x0A, 0x01, 0x02, 0x03, 0x04, // 7
        0x0B, 0xFF, 0xFF, 0x00, 0x00, // 8
        0x0C, 0x00, 0x01, 0x00, 0x01, // 9
        0x03, 0x7F, 0xFF, 0xFF, 0xFF, // 10
        0x01, 0x00, 0x00, // 11
    ];
    let mut p = ClassfileParser::of("N.class".to_string(), with_header(12, &pool));
    let c = p.parse().unwrap();
    let cp = &c.constant_pool;
    assert_eq!(cp.slot_count(), 12);
    assert_eq!(cp.get(1), Some(&CpEntry::Utf8("abc".to_string())));
    assert_eq!(cp.get(2), Some(&CpEntry::Integer(i32::MIN)));
    assert_eq!(cp.get(3), Some(&CpEntry::Float(0x40490FDB)));
    assert_eq!(f32::from_bits(0x40490FDB), 3.1415927f32);
    assert_eq!(cp.get(4), Some(&CpEntry::Class { name_index: 1 }));
    assert_eq!(cp.get(5), Some(&CpEntry::String { string_index: 1 }));
    assert_eq!(
        cp.get(6),
        Some(&CpEntry::FieldRef { class_index: 4, name_and_type_index: 8 })
    );
    assert_eq!(
        cp.get(7),
        Some(&CpEntry::MethodRef { class_index: 0x0102, name_and_type_index: 0x0304 })
    );
    assert_eq!(
        cp.get(8),
        Some(&CpEntry::InterfaceMethodRef { class_index: 0xFFFF, name_and_type_index: 0 })
    );
    assert_eq!(
        cp.get(9),
        Some(&CpEntry::NameAndType { name_index: 1, descriptor_index: 1 })
    );
    assert_eq!(cp.get(10), Some(&CpEntry::Integer(i32::MAX)));
    assert_eq!(cp.get(11), Some(&CpEntry::Utf8(String::new())));
    assert_eq!(p.position(), 10 + pool.len());
}

#[test]
fn truncation_is_end_of_input() {
    let pool = [
        0x01, 0x00, 0x02, b'o', b'k', 0x05, 1, 2, 3, 4, 5, 6, 7, 8, 0x0A, 0x00, 0x01, 0x00, 0x02,
    ];
    let full = with_header(5, &pool);
    let mut p = ClassfileParser::of("T.class".to_string(), full.clone());
    assert!(p.parse().is_ok());
    for k in 0..full.len() {
        let kind = decode_kind(full[..k].to_vec());
        assert!(
            matches!(kind, ErrorKind::UnexpectedEndOfInput { .. }),
            "cut at {}: {:?}",
            k,
            kind
        );
    }
}

#[test]
fn end_of_input_offsets() {
    assert_eq!(decode_kind(vec![]), ErrorKind::UnexpectedEndOfInput { offset: 0 });
    assert_eq!(decode_kind(vec![0xCA, 0xFE]), ErrorKind::UnexpectedEndOfInput { offset: 0 });
    assert_eq!(
        decode_kind(vec![0xCA, 0xFE, 0xBA, 0xBE, 0x00]),
        ErrorKind::UnexpectedEndOfInput { offset: 4 }
    );
    assert_eq!(
        decode_kind(vec![0xCA, 0xFE, 0xBA, 0xBE, 0, 0, 0, 52, 0]),
        ErrorKind::UnexpectedEndOfInput { offset: 8 }
    );
    assert_eq!(
        decode_kind(with_header(2, &[])),
        ErrorKind::UnexpectedEndOfInput { offset: 10 }
    );
    assert_eq!(
        decode_kind(with_header(2, &[0x09, 0x00, 0x01, 0x00])),
        ErrorKind::UnexpectedEndOfInput { offset: 13 }
    );
    assert_eq!(
        decode_kind(with_header(2, &[0x06, 1, 2, 3, 4, 5, 6, 7])),
        ErrorKind::UnexpectedEndOfInput { offset: 11 }
    );
}

#[test]
fn utf8_length_past_end() {
    assert_eq!(
        decode_kind(with_header(2, &[0x01, 0x00, 0x05, b'a', b'b'])),
        ErrorKind::UnexpectedEndOfInput { offset: 13 }
    );
    assert_eq!(
        decode_kind(with_header(2, &[0x01, 0xFF, 0xFF])),
        ErrorKind::UnexpectedEndOfInput { offset: 13 }
    );
}

#[test]
fn invalid_utf8() {
    assert_eq!(
        decode_kind(with_header(3, &[0x07, 0x00, 0x02, 0x01, 0x00, 0x02, 0xC3, 0x28])),
        ErrorKind::InvalidEncoding { slot: 2, offset: 16 }
    );
}

#[test]
fn multibyte_utf8() {
    let pool = [0x01, 0x00, 0x03, 0xE2, 0x82, 0xAC];
    let mut p = ClassfileParser::of("U.class".to_string(), with_header(2, &pool));
    let c = p.parse().unwrap();
    assert_eq!(c.constant_pool.get(1), Some(&CpEntry::Utf8("\u{20AC}".to_string())));
}

#[test]
fn cursor_reads() {
    let bytes = vec![0x12, 0x34, 0x56, 0x78, 0xFF, 0xFF, 0xFF, 0xFF];
    let mut p = ClassfileParser::of("R.class".to_string(), bytes);
    assert_eq!(p.read_u8(), Ok(0x12));
    assert_eq!(p.read_and_merge_next_two_bytes(), Ok(0x3456));
    assert_eq!(p.read_next_four_bytes(), Ok([0x78, 0xFF, 0xFF, 0xFF]));
    assert_eq!(p.position(), 7);
    assert_eq!(p.read_i32(), Err(ErrorKind::UnexpectedEndOfInput { offset: 7 }));
    assert_eq!(p.position(), 7);
    assert_eq!(p.read_u8(), Ok(0xFF));
    assert_eq!(p.read_u8(), Err(ErrorKind::UnexpectedEndOfInput { offset: 8 }));

    let mut q = ClassfileParser::of("R.class".to_string(), vec![0xFF, 0xFF, 0xFF, 0xFE]);
    assert_eq!(q.read_i32(), Ok(-2));
    let mut q = ClassfileParser::of("R.class".to_string(), vec![0xFF, 0xFF, 0xFF, 0xFE]);
    assert_eq!(q.read_f32_bits(), Ok(0xFFFF_FFFE));
    let eight = vec![0x80, 0, 0, 0, 0, 0, 0, 1];
    let mut q = ClassfileParser::of("R.class".to_string(), eight.clone());
    assert_eq!(q.read_i64(), Ok(i64::MIN + 1));
    let mut q = ClassfileParser::of("R.class".to_string(), eight);
    assert_eq!(q.read_f64_bits(), Ok(0x8000_0000_0000_0001));
    assert_eq!(q.position(), 8);
    let mut q = ClassfileParser::of("R.class".to_string(), b"xyz".to_vec());
    assert_eq!(q.read_utf8(2, 1), Ok("xy".to_string()));
    assert_eq!(q.read_utf8(2, 1), Err(ErrorKind::UnexpectedEndOfInput { offset: 2 }));
}
