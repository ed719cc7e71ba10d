use jclass::class_parser::ClassParser;
use jclass::common::ErrorKind;
use jclass::constant_pool::ConstantValue;
use jclass::jclass_info::JClassInfo;
use jclass::support::data_reader::DataReader;

fn u16be(out: &mut Vec<u8>, v: u16) {
    out.extend_from_slice(&v.to_be_bytes());
}

fn u32be(out: &mut Vec<u8>, v: u32) {
    out.extend_from_slice(&v.to_be_bytes());
}

fn utf8(out: &mut Vec<u8>, s: &str) {
    out.push(1);
    u16be(out, s.len() as u16);
    out.extend_from_slice(s.as_bytes());
}

fn minimal_class() -> Vec<u8> {
    vec![
        0xCA, 0xFE, 0xBA, 0xBE, 0x00, 0x00, 0x00, 0x34, 0x00, 0x01, 0x00, 0x21, 0x00, 0x00, 0x00,
        0x00, 0x00, 0x00, 0x00, 0x00, 0x00, 0x00, 0x00, 0x00,
    ]
}

/// The payload of a code attribute: limits, three bytes of code, one
/// exception-table row and one nested attribute.
fn code_payload() -> Vec<u8> {
    let mut c = Vec::new();
    u16be(&mut c, 2);
    u16be(&mut c, 1);
    u32be(&mut c, 3);
    c.extend_from_slice(&[0x2a, 0xb7, 0xb1]);
    u16be(&mut c, 1);
    u16be(&mut c, 0);
    u16be(&mut c, 3);
    u16be(&mut c, 3);
    u16be(&mut c, 0);
    u16be(&mut c, 1);
    u16be(&mut c, 9);
    u32be(&mut c, 2);
    c.extend_from_slice(&[0x00, 0x07]);
    c
}

/// A class with constants of most kinds, an interface, a field with an
/// attribute, two methods (one with a "Code" attribute) and a class attribute.
fn sample_class() -> Vec<u8> {
    let mut b = Vec::new();
    u32be(&mut b, 0xCAFEBABE);
    u16be(&mut b, 3);
    u16be(&mut b, 52);
    u16be(&mut b, 16);
    utf8(&mut b, "Sample"); // 1
    b.push(7);
    u16be(&mut b, 1); // 2: class
    utf8(&mut b, "Code"); // 3
    utf8(&mut b, "SourceFile"); // 4
    b.push(3);
    u32be(&mut b, 0xFFFF_FFFE); // 5: integer -2
    b.push(4);
    u32be(&mut b, 0x3F80_0000); // 6: float 1.0
    b.push(5);
    b.extend_from_slice(&[0x80, 0, 0, 0, 0, 0, 0, 1]); // 7: long
    b.push(6);
    b.extend_from_slice(&[0x40, 0x09, 0x21, 0xFB, 0x54, 0x44, 0x2D, 0x18]); // 8: double
    b.push(12);
    u16be(&mut b, 1);
    u16be(&mut b, 3); // 9: name and type
    b.push(10);
    u16be(&mut b, 2);
    u16be(&mut b, 9); // 10: method ref
    b.push(15);
    b.push(5);
    u16be(&mut b, 10); // 11: method handle
    b.push(8);
    u16be(&mut b, 1); // 12: string
    b.push(18);
    u16be(&mut b, 0);
    u16be(&mut b, 9); // 13: invoke dynamic
    utf8(&mut b, "h\u{e9}llo \u{4e16}"); // 14: text with multi-byte characters
    b.push(16);
    u16be(&mut b, 1); // 15: method type
    u16be(&mut b, 0x0021);
    u16be(&mut b, 2);
    u16be(&mut b, 0);
    u16be(&mut b, 1);
    u16be(&mut b, 2);
    // fields
    u16be(&mut b, 1);
    u16be(&mut b, 0x0002);
    u16be(&mut b, 1);
    u16be(&mut b, 1);
    u16be(&mut b, 1);
    u16be(&mut b, 4);
    u32be(&mut b, 2);
    b.extend_from_slice(&[0, 1]);
    // methods
    u16be(&mut b, 2);
    u16be(&mut b, 0x0001);
    u16be(&mut b, 1);
    u16be(&mut b, 1);
    u16be(&mut b, 1);
    let payload = code_payload();
    u16be(&mut b, 3);
    u32be(&mut b, payload.len() as u32);
    b.extend_from_slice(&payload);
    u16be(&mut b, 0x0401);
    u16be(&mut b, 1);
    u16be(&mut b, 1);
    u16be(&mut b, 0);
    // class attributes
    u16be(&mut b, 1);
    u16be(&mut b, 4);
    u32be(&mut b, 2);
    b.extend_from_slice(&[0, 1]);
    b
}


#[test]
fn parser_reads_sections_on_demand() {
    let data = sample_class();
    let mut p = ClassParser::new(DataReader::new(&data));
    assert_eq!(p.major_version().unwrap(), 52);
    assert_eq!(p.minor_version().unwrap(), 3);
    assert_eq!(p.magic().unwrap(), 0xCAFEBABE);
    let methods = p.methods().unwrap();
    assert_eq!(methods.len(), 2);
    assert_eq!(methods[0].attributes[0].name, 3);
    let pool = p.constant_pool().unwrap();
    assert_eq!(pool.get_constant_count(), 15);
    assert_eq!(*pool.get_constant_item(2), ConstantValue::ConstantClass(1));
    assert_eq!(p.access_flags().unwrap(), 0x0021);
    assert_eq!(p.class_index().unwrap(), 2);
    assert_eq!(p.superclass_index().unwrap(), 0);
    assert_eq!(p.interfaces().unwrap(), vec![2]);
    assert_eq!(p.fields().unwrap().len(), 1);
    assert_eq!(p.attributes().unwrap()[0].data, vec![0, 1]);
    p.load_all().unwrap();
}

#[test]
fn parser_agrees_with_full_decode() {
    let data = sample_class();
    let mut p = ClassParser::new(DataReader::new(&data));
    let whole = p.get_jclass_info().unwrap();
    assert_eq!(whole.to_bytes().unwrap(), data);
    let direct = JClassInfo::from_bytes(&data).unwrap();
    assert_eq!(whole.to_bytes().unwrap(), direct.to_bytes().unwrap());
}

#[test]
fn parser_replays_an_earlier_error() {
    let data = sample_class();
    let mut p = ClassParser::new(DataReader::new(&data[..60]));
    assert_eq!(p.major_version().unwrap(), 52);
    assert_eq!(p.constant_pool().unwrap_err().kind, ErrorKind::TruncatedInput);
    assert_eq!(p.methods().unwrap_err().kind, ErrorKind::TruncatedInput);
    assert_eq!(p.constant_pool().unwrap_err().kind, ErrorKind::TruncatedInput);
    assert_eq!(p.minor_version().unwrap(), 3);
    assert_eq!(p.load_all().unwrap_err().kind, ErrorKind::TruncatedInput);
    let mut bad = data.clone();
    bad[3] = 0;
    let mut p = ClassParser::new(DataReader::new(&bad));
    assert_eq!(p.attributes().unwrap_err().kind, ErrorKind::InvalidMagic);
    assert_eq!(p.magic().unwrap_err().kind, ErrorKind::InvalidMagic);
    assert_eq!(p.get_jclass_info().unwrap_err().kind, ErrorKind::InvalidMagic);
}
