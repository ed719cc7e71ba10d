use jclass::attribute_info::{CodeAttribute, ExceptionTable, ExceptionTableEntry, OriginAttribute};
use jclass::common::ErrorKind;
use jclass::constant_pool::{ConstantPool, ConstantValue};
use jclass::jclass_info::{JClassInfo, JCLASS_MAGIC};
use jclass::support::data_reader::{DataReader, DataWriter};

fn u16be(out: &mut Vec<u8>, v: u16) {
    out.extend_from_slice(&v.to_be_bytes());
}

fn u32be(out: &mut Vec<u8>, v: u32) {
    out.extend_from_slice(&v.to_be_bytes());
}

fn utf8(out: &mut Vec<u8>, s: &str) {
    out.push(1);
    u16be(out, s.len() as u16);
    out.extend_from_slice(s.as_bytes());
}

fn minimal_class() -> Vec<u8> {
    vec![
        0xCA, 0xFE, 0xBA, 0xBE, 0x00, 0x00, 0x00, 0x34, 0x00, 0x01, 0x00, 0x21, 0x00, 0x00, 0x00,
        0x00, 0x00, 0x00, 0x00, 0x00, 0x00, 0x00, 0x00, 0x00,
    ]
}

/// The payload of a code attribute: limits, three bytes of code, one
/// exception-table row and one nested attribute.
fn code_payload() -> Vec<u8> {
    let mut c = Vec::new();
    u16be(&mut c, 2);
    u16be(&mut c, 1);
    u32be(&mut c, 3);
    c.extend_from_slice(&[0x2a, 0xb7, 0xb1]);
    u16be(&mut c, 1);
    u16be(&mut c, 0);
    u16be(&mut c, 3);
    u16be(&mut c, 3);
    u16be(&mut c, 0);
    u16be(&mut c, 1);
    u16be(&mut c, 9);
    u32be(&mut c, 2);
    c.extend_from_slice(&[0x00, 0x07]);
    c
}

/// A class with constants of most kinds, an interface, a field with an
/// attribute, two methods (one with a "Code" attribute) and a class attribute.
fn sample_class() -> Vec<u8> {
    let mut b = Vec::new();
    u32be(&mut b, 0xCAFEBABE);
    u16be(&mut b, 3);
    u16be(&mut b, 52);
    u16be(&mut b, 16);
    utf8(&mut b, "Sample"); // 1
    b.push(7);
    u16be(&mut b, 1); // 2: class
    utf8(&mut b, "Code"); // 3
    utf8(&mut b, "SourceFile"); // 4
    b.push(3);
    u32be(&mut b, 0xFFFF_FFFE); // 5: integer -2
    b.push(4);
    u32be(&mut b, 0x3F80_0000); // 6: float 1.0
    b.push(5);
    b.extend_from_slice(&[0x80, 0, 0, 0, 0, 0, 0, 1]); // 7: long
    b.push(6);
    b.extend_from_slice(&[0x40, 0x09, 0x21, 0xFB, 0x54, 0x44, 0x2D, 0x18]); // 8: double
    b.push(12);
    u16be(&mut b, 1);
    u16be(&mut b, 3); // 9: name and type
    b.push(10);
    u16be(&mut b, 2);
    u16be(&mut b, 9); // 10: method ref
    b.push(15);
    b.push(5);
    u16be(&mut b, 10); // 11: method handle
    b.push(8);
    u16be(&mut b, 1); // 12: string
    b.push(18);
    u16be(&mut b, 0);
    u16be(&mut b, 9); // 13: invoke dynamic
    utf8(&mut b, "h\u{e9}llo \u{4e16}"); // 14: text with multi-byte characters
    b.push(16);
    u16be(&mut b, 1); // 15: method type
    u16be(&mut b, 0x0021);
    u16be(&mut b, 2);
    u16be(&mut b, 0);
    u16be(&mut b, 1);
    u16be(&mut b, 2);
    // fields
    u16be(&mut b, 1);
    u16be(&mut b, 0x0002);
    u16be(&mut b, 1);
    u16be(&mut b, 1);
    u16be(&mut b, 1);
    u16be(&mut b, 4);
    u32be(&mut b, 2);
    b.extend_from_slice(&[0, 1]);
    // methods
    u16be(&mut b, 2);
    u16be(&mut b, 0x0001);
    u16be(&mut b, 1);
    u16be(&mut b, 1);
    u16be(&mut b, 1);
    let payload = code_payload();
    u16be(&mut b, 3);
    u32be(&mut b, payload.len() as u32);
    b.extend_from_slice(&payload);
    u16be(&mut b, 0x0401);
    u16be(&mut b, 1);
    u16be(&mut b, 1);
    u16be(&mut b, 0);
    // class attributes
    u16be(&mut b, 1);
    u16be(&mut b, 4);
    u32be(&mut b, 2);
    b.extend_from_slice(&[0, 1]);
    b
}

#[test]
fn minimal_class_decodes_and_reencodes() {
    let bytes = minimal_class();
    let info = JClassInfo::from_bytes(&bytes).unwrap();
    assert_eq!(info.magic, JCLASS_MAGIC);
    assert_eq!(info.minor_version, 0);
    assert_eq!(info.major_version, 52);
    assert_eq!(info.constant_pool.get_constant_count(), 0);
    assert_eq!(info.access_flags, 0x0021);
    assert_eq!(info.class_index, 0);
    assert_eq!(info.superclass_index, 0);
    assert!(info.interfaces.is_empty());
    assert!(info.fields.is_empty());
    assert!(info.methods.is_empty());
    assert!(info.attributes.is_empty());
    assert_eq!(info.to_bytes().unwrap(), bytes);
    assert_eq!(info.byte_size(), bytes.len());
}

#[test]
fn sample_class_round_trips() {
    let bytes = sample_class();
    let info = JClassInfo::from_bytes(&bytes).unwrap();
    assert_eq!(info.constant_pool.get_constant_count(), 15);
    assert_eq!(info.interfaces, vec![2]);
    assert_eq!(info.fields.len(), 1);
    assert_eq!(info.methods.len(), 2);
    assert_eq!(info.attributes.len(), 1);
    let out = info.to_bytes().unwrap();
    assert_eq!(out, bytes);
    assert_eq!(info.byte_size(), out.len());
}

#[test]
fn sample_class_constants_are_read_by_kind() {
    let info = JClassInfo::from_bytes(&sample_class()).unwrap();
    let pool = &info.constant_pool;
    assert_eq!(*pool.get_constant_item(1), ConstantValue::ConstantUtf8("Sample".to_string()));
    assert_eq!(*pool.get_constant_item(2), ConstantValue::ConstantClass(1));
    assert_eq!(*pool.get_constant_item(5), ConstantValue::ConstantInteger(-2));
    assert_eq!(*pool.get_constant_item(6), ConstantValue::ConstantFloat(1.0f32.to_bits()));
    assert_eq!(*pool.get_constant_item(7), ConstantValue::ConstantLong(i64::MIN + 1));
    assert_eq!(
        *pool.get_constant_item(8),
        ConstantValue::ConstantDouble(std::f64::consts::PI.to_bits())
    );
    assert_eq!(*pool.get_constant_item(9), ConstantValue::ConstantNameAndType(1, 3));
    assert_eq!(*pool.get_constant_item(10), ConstantValue::ConstantMethodref(2, 9));
    assert_eq!(*pool.get_constant_item(11), ConstantValue::ConstantMethodHandle(5, 10));
    assert_eq!(*pool.get_constant_item(12), ConstantValue::ConstantString(1));
    assert_eq!(*pool.get_constant_item(13), ConstantValue::ConstantInvokeDynamic(0, 9));
    assert_eq!(
        *pool.get_constant_item(14),
        ConstantValue::ConstantUtf8("h\u{e9}llo \u{4e16}".to_string())
    );
    assert_eq!(*pool.get_constant_item(15), ConstantValue::ConstantMethodType(1));
}

#[test]
fn pool_lookup_out_of_range_gives_placeholder() {
    let info = JClassInfo::from_bytes(&sample_class()).unwrap();
    let pool = &info.constant_pool;
    assert_eq!(*pool.get_constant_item(0), ConstantValue::Null);
    assert_eq!(*pool.get_constant_item(16), ConstantValue::Null);
    assert_eq!(*pool.get_constant_item(0xFFFF), ConstantValue::Null);
    assert_eq!(*pool.get_constant_item(15), ConstantValue::ConstantMethodType(1));
}

#[test]
fn every_truncation_fails_as_truncated() {
    let bytes = sample_class();
    for k in 0..bytes.len() {
        let e = JClassInfo::from_bytes(&bytes[..k]).unwrap_err();
        assert_eq!(e.kind, ErrorKind::TruncatedInput, "cut at {}", k);
    }
}

#[test]
fn wrong_magic_fails_first() {
    let mut bytes = minimal_class();
    bytes[0] = 0xCB;
    assert_eq!(JClassInfo::from_bytes(&bytes).unwrap_err().kind, ErrorKind::InvalidMagic);
    assert_eq!(JClassInfo::from_bytes(&[0xCA, 0xFE, 0xBA, 0xBF]).unwrap_err().kind, ErrorKind::InvalidMagic);
}

#[test]
fn unknown_constant_tag_fails() {
    let mut bytes = minimal_class();
    bytes[9] = 2;
    bytes.splice(10..10, [2u8, 0, 0]);
    assert_eq!(
        JClassInfo::from_bytes(&bytes).unwrap_err().kind,
        ErrorKind::UnknownConstantTag(2)
    );
}

#[test]
fn invalid_utf8_text_fails() {
    let mut bytes = minimal_class();
    bytes[9] = 2;
    bytes.splice(10..10, [1u8, 0, 2, 0xC3, 0x28]);
    assert_eq!(JClassInfo::from_bytes(&bytes).unwrap_err().kind, ErrorKind::InvalidEncoding);
}

#[test]
fn zero_pool_count_reads_no_constants() {
    let mut bytes = minimal_class();
    bytes[9] = 0;
    let info = JClassInfo::from_bytes(&bytes).unwrap();
    assert_eq!(info.constant_pool.get_constant_count(), 0);
    let out = info.to_bytes().unwrap();
    assert_eq!(out[9], 1);
}

#[test]
fn dedup_insert_returns_same_index() {
    let mut pool = ConstantPool::new(4);
    let a = pool.add_constant(ConstantValue::ConstantUtf8("Code".to_string()));
    let b = pool.add_constant(ConstantValue::ConstantUtf8("Code".to_string()));
    assert_eq!(a, 1);
    assert_eq!(a, b);
    assert_eq!(pool.get_constant_count(), 1);
    let c = pool.add_constant(ConstantValue::ConstantFloat(0.5f32.to_bits()));
    assert_eq!(c, 2);
    assert_eq!(pool.add_constant(ConstantValue::ConstantFloat(0.5f32.to_bits())), 2);
    assert_eq!(pool.add_constant(ConstantValue::ConstantFloat((-0.5f32).to_bits())), 3);
    assert_eq!(pool.get_constant_count(), 3);
}

#[test]
fn forced_insert_always_appends() {
    let mut pool = ConstantPool::new(0);
    assert_eq!(pool.add_constant_force(ConstantValue::ConstantClass(1)), 1);
    assert_eq!(pool.add_constant_force(ConstantValue::ConstantClass(1)), 2);
    assert_eq!(pool.get_constant_count(), 2);
    assert_eq!(pool.add_constant(ConstantValue::ConstantClass(1)), 1);
    assert_eq!(pool.get_constant_count(), 2);
}

#[test]
fn pool_encodes_count_plus_one() {
    let mut pool = ConstantPool::new(2);
    pool.add_constant(ConstantValue::ConstantInteger(7));
    pool.add_constant(ConstantValue::ConstantModule(3));
    let mut w = DataWriter::new();
    pool.write_to(&mut w).unwrap();
    assert_eq!(w.into_bytes(), vec![0, 3, 3, 0, 0, 0, 7, 19, 0, 3]);
    assert_eq!(pool.byte_size(), 10);
}

#[test]
fn overlong_text_fails_to_encode() {
    let v = ConstantValue::ConstantUtf8("x".repeat(70000));
    let mut w = DataWriter::new();
    assert_eq!(v.write_to(&mut w).unwrap_err().kind, ErrorKind::SizeOverflow);
    let ok = ConstantValue::ConstantUtf8("x".repeat(65535));
    let mut w = DataWriter::new();
    ok.write_to(&mut w).unwrap();
    assert_eq!(w.len(), 65538);
    assert_eq!(ok.byte_size(), 65538);
}

#[test]
fn constant_tags_and_sizes() {
    assert_eq!(ConstantValue::ConstantUtf8("ab".to_string()).byte(), 1);
    assert_eq!(ConstantValue::ConstantLong(0).byte(), 5);
    assert_eq!(ConstantValue::ConstantPackage(0).byte(), 20);
    assert_eq!(ConstantValue::Null.byte(), 0);
    assert_eq!(ConstantValue::ConstantUtf8("\u{e9}".to_string()).byte_size(), 5);
    assert_eq!(ConstantValue::ConstantDouble(0).byte_size(), 9);
    assert_eq!(ConstantValue::ConstantMethodHandle(1, 2).byte_size(), 4);
}

#[test]
fn code_attribute_round_trips() {
    let payload = code_payload();
    let code = CodeAttribute::new_with_data(&payload).unwrap();
    assert_eq!(code.max_stack, 2);
    assert_eq!(code.max_locals, 1);
    assert_eq!(code.codes, vec![0x2a, 0xb7, 0xb1]);
    assert_eq!(
        code.exceptions.entries,
        vec![ExceptionTableEntry { start_pc: 0, end_pc: 3, handler_pc: 3, catch_type: 0 }]
    );
    assert_eq!(code.attributes.len(), 1);
    assert_eq!(code.attributes[0].name, 9);
    assert_eq!(code.attributes[0].data, vec![0, 7]);
    let out = code.to_bytes().unwrap();
    assert_eq!(out, payload);
    assert_eq!(code.byte_size(), out.len());
    assert_eq!(code.byte_size(), 12 + 3 + 8 + 8);
}

#[test]
fn code_attribute_from_decoded_method() {
    let info = JClassInfo::from_bytes(&sample_class()).unwrap();
    let attr = &info.methods[0].attributes[0];
    assert_eq!(attr.name, 3);
    let code = CodeAttribute::new_with_data(&attr.data).unwrap();
    assert_eq!(code.to_bytes().unwrap(), attr.data);
}

#[test]
fn truncated_code_attribute_fails() {
    let payload = code_payload();
    for k in 0..payload.len() {
        assert_eq!(
            CodeAttribute::new_with_data(&payload[..k]).unwrap_err().kind,
            ErrorKind::TruncatedInput
        );
    }
}

#[test]
fn exception_table_sizes() {
    let t = ExceptionTable {
        entries: vec![
            ExceptionTableEntry { start_pc: 1, end_pc: 2, handler_pc: 3, catch_type: 4 },
            ExceptionTableEntry { start_pc: 5, end_pc: 6, handler_pc: 7, catch_type: 8 },
        ],
    };
    assert_eq!(t.byte_size(), 16);
    assert_eq!(ExceptionTableEntry::byte_size(), 8);
    let mut w = DataWriter::new();
    t.write_to(&mut w).unwrap();
    let bytes = w.into_bytes();
    assert_eq!(bytes, vec![0, 2, 0, 1, 0, 2, 0, 3, 0, 4, 0, 5, 0, 6, 0, 7, 0, 8]);
    let mut r = DataReader::new(&bytes);
    let back = ExceptionTable::new_with_reader(&mut r).unwrap();
    assert_eq!(back.entries, t.entries);
    assert_eq!(r.position(), 18);
}

#[test]
fn origin_attribute_write_and_size() {
    let a = OriginAttribute { name: 0x0102, data: vec![9, 8, 7] };
    let mut w = DataWriter::new();
    a.write_to(&mut w).unwrap();
    assert_eq!(w.into_bytes(), vec![1, 2, 0, 0, 0, 3, 9, 8, 7]);
    assert_eq!(a.byte_size(), 9);
    let bytes = [1u8, 2, 0, 0, 0, 3, 9, 8];
    let mut r = DataReader::new(&bytes);
    assert_eq!(OriginAttribute::new_from_reader(&mut r).unwrap_err().kind, ErrorKind::TruncatedInput);
}

#[test]
fn pool_index_validity_is_checked() {
    let info = JClassInfo::from_bytes(&sample_class()).unwrap();
    assert!(info.constant_pool.indices_valid());
    let mut bytes = minimal_class();
    bytes[9] = 2;
    bytes.splice(10..10, [7u8, 0, 9]);
    let info = JClassInfo::from_bytes(&bytes).unwrap();
    assert!(!info.constant_pool.indices_valid());
    let mut pool = ConstantPool::new(2);
    pool.add_constant(ConstantValue::ConstantUtf8("A".to_string()));
    pool.add_constant(ConstantValue::ConstantClass(1));
    assert!(pool.indices_valid());
    pool.add_constant_force(ConstantValue::ConstantFieldref(2, 4));
    assert!(!pool.indices_valid());
    assert!(ConstantValue::ConstantFieldref(2, 3).refs_at_most(3));
    assert!(!ConstantValue::ConstantMethodHandle(1, 4).refs_at_most(3));
}

#[test]
fn tag_zero_is_an_unknown_constant() {
    let mut bytes = minimal_class();
    bytes[9] = 2;
    bytes.splice(10..10, [0u8]);
    assert_eq!(
        JClassInfo::from_bytes(&bytes).unwrap_err().kind,
        ErrorKind::UnknownConstantTag(0)
    );
    let one = [0u8];
    let mut r = DataReader::new(&one);
    assert_eq!(
        ConstantValue::new_with_reader(&mut r).unwrap_err().kind,
        ErrorKind::UnknownConstantTag(0)
    );
    let mut w = DataWriter::new();
    assert_eq!(ConstantValue::Null.write_to(&mut w).unwrap_err().kind, ErrorKind::UnknownConstantTag(0));
    assert_eq!(w.len(), 0);
}

#[test]
fn wrong_magic_stops_after_four_bytes() {
    let bytes = [0u8, 1, 2, 3, 4, 5];
    let mut r = DataReader::new(&bytes);
    assert_eq!(JClassInfo::from_reader(&mut r).unwrap_err().kind, ErrorKind::InvalidMagic);
    assert_eq!(r.position(), 4);
}
