use jclass::common::{ErrorKind, MessageError, ToResult};
use jclass::jclass_info::JClassInfo;
use jclass::lazy_value::LazyValue;
use jclass::support::data_reader::{DataReader, DataWriter, ReadToType, WriteFromType};
use jclass::util::byte_utils::{bytes_to_u16_be, bytes_to_u32_be};
use jclass::util::class_attr_check::{self, DataRange};
use jclass::util::class_data_parser::class_const_code_parse;
use jclass::util::class_scan;
use jclass::util::io_utils::{read_class_bytes, read_class_bytes_u16, read_class_bytes_u32};
use jclass::util::reader_utils::{read_bytes, read_bytes_with_pre_size};

fn u16be(out: &mut Vec<u8>, v: u16) {
    out.extend_from_slice(&v.to_be_bytes());
}

fn u32be(out: &mut Vec<u8>, v: u32) {
    out.extend_from_slice(&v.to_be_bytes());
}

fn utf8(out: &mut Vec<u8>, s: &str) {
    out.push(1);
    u16be(out, s.len() as u16);
    out.extend_from_slice(s.as_bytes());
}

fn minimal_class() -> Vec<u8> {
    vec![
        0xCA, 0xFE, 0xBA, 0xBE, 0x00, 0x00, 0x00, 0x34, 0x00, 0x01, 0x00, 0x21, 0x00, 0x00, 0x00,
        0x00, 0x00, 0x00, 0x00, 0x00, 0x00, 0x00, 0x00, 0x00,
    ]
}

/// The payload of a code attribute: limits, three bytes of code, one
/// exception-table row and one nested attribute.
fn code_payload() -> Vec<u8> {
    let mut c = Vec::new();
    u16be(&mut c, 2);
    u16be(&mut c, 1);
    u32be(&mut c, 3);
    c.extend_from_slice(&[0x2a, 0xb7, 0xb1]);
    u16be(&mut c, 1);
    u16be(&mut c, 0);
    u16be(&mut c, 3);
    u16be(&mut c, 3);
    u16be(&mut c, 0);
    u16be(&mut c, 1);
    u16be(&mut c, 9);
    u32be(&mut c, 2);
    c.extend_from_slice(&[0x00, 0x07]);
    c
}

/// A class with constants of most kinds, an interface, a field with an
/// attribute, two methods (one with a "Code" attribute) and a class attribute.
fn sample_class() -> Vec<u8> {
    let mut b = Vec::new();
    u32be(&mut b, 0xCAFEBABE);
    u16be(&mut b, 3);
    u16be(&mut b, 52);
    u16be(&mut b, 16);
    utf8(&mut b, "Sample"); // 1
    b.push(7);
    u16be(&mut b, 1); // 2: class
    utf8(&mut b, "Code"); // 3
    utf8(&mut b, "SourceFile"); // 4
    b.push(3);
    u32be(&mut b, 0xFFFF_FFFE); // 5: integer -2
    b.push(4);
    u32be(&mut b, 0x3F80_0000); // 6: float 1.0
    b.push(5);
    b.extend_from_slice(&[0x80, 0, 0, 0, 0, 0, 0, 1]); // 7: long
    b.push(6);
    b.extend_from_slice(&[0x40, 0x09, 0x21, 0xFB, 0x54, 0x44, 0x2D, 0x18]); // 8: double
    b.push(12);
    u16be(&mut b, 1);
    u16be(&mut b, 3); // 9: name and type
    b.push(10);
    u16be(&mut b, 2);
    u16be(&mut b, 9); // 10: method ref
    b.push(15);
    b.push(5);
    u16be(&mut b, 10); // 11: method handle
    b.push(8);
    u16be(&mut b, 1); // 12: string
    b.push(18);
    u16be(&mut b, 0);
    u16be(&mut b, 9); // 13: invoke dynamic
    utf8(&mut b, "h\u{e9}llo \u{4e16}"); // 14: text with multi-byte characters
    b.push(16);
    u16be(&mut b, 1); // 15: method type
    u16be(&mut b, 0x0021);
    u16be(&mut b, 2);
    u16be(&mut b, 0);
    u16be(&mut b, 1);
    u16be(&mut b, 2);
    // fields
    u16be(&mut b, 1);
    u16be(&mut b, 0x0002);
    u16be(&mut b, 1);
    u16be(&mut b, 1);
    u16be(&mut b, 1);
    u16be(&mut b, 4);
    u32be(&mut b, 2);
    b.extend_from_slice(&[0, 1]);
    // methods
    u16be(&mut b, 2);
    u16be(&mut b, 0x0001);
    u16be(&mut b, 1);
    u16be(&mut b, 1);
    u16be(&mut b, 1);
    let payload = code_payload();
    u16be(&mut b, 3);
    u32be(&mut b, payload.len() as u32);
    b.extend_from_slice(&payload);
    u16be(&mut b, 0x0401);
    u16be(&mut b, 1);
    u16be(&mut b, 1);
    u16be(&mut b, 0);
    // class attributes
    u16be(&mut b, 1);
    u16be(&mut b, 4);
    u32be(&mut b, 2);
    b.extend_from_slice(&[0, 1]);
    b
}


#[test]
fn sample_layout_is_as_built() {
    assert_eq!(sample_class().len(), 201);
    assert_eq!(code_payload().len(), 31);
}

#[test]
fn attr_check_scan_finds_class_attribute() {
    let data = sample_class();
    let info = class_attr_check::fast_scan_class(&data, b"SourceFile", false).unwrap().unwrap();
    assert_eq!(info.constants_end, 108);
    assert_eq!(info.fields_start, 118);
    assert_eq!(info.methods_start, 136);
    assert_eq!(info.attributes_start, 191);
    assert_eq!(info.specify_attribute, Some(DataRange { start: 199, end: 201 }));
}

#[test]
fn attr_check_scan_without_name_constant_finds_nothing() {
    let data = sample_class();
    assert!(class_attr_check::fast_scan_class(&data, b"InnerClasses", false).unwrap().is_none());
    let info = class_attr_check::fast_scan_class(&data, &[], true).unwrap().unwrap();
    assert_eq!(info.constants_end, 108);
    assert_eq!(info.specify_attribute, None);
}

#[test]
fn scan_records_constant_bounds_and_codes() {
    let data = sample_class();
    let info = class_scan::fast_scan_class(&data, b"SourceFile", false).unwrap().unwrap();
    assert_eq!(
        info.consts,
        vec![10, 19, 22, 29, 42, 47, 52, 61, 70, 75, 80, 84, 87, 92, 105, 108]
    );
    assert_eq!(info.fields_start, 118);
    assert_eq!(info.methods_start, 136);
    assert_eq!(info.method_codes, vec![(146, 183), (0, 0)]);
    assert_eq!(info.attributes_start, 191);
    assert_eq!(info.specify_attribute, Some(class_scan::DataRange { start: 199, end: 201 }));
}

#[test]
fn scanned_code_range_matches_decoded_attribute() {
    let data = sample_class();
    let info = class_scan::fast_scan_class(&data, &[], true).unwrap().unwrap();
    let class = JClassInfo::from_bytes(&data).unwrap();
    assert_eq!(info.method_codes.len(), class.methods.len());
    let (start, end) = info.method_codes[0];
    let attr = &class.methods[0].attributes[0];
    let mut w = DataWriter::new();
    attr.write_to(&mut w).unwrap();
    assert_eq!(&data[start..end], w.into_bytes().as_slice());
    assert!(class.methods[1].attributes.is_empty());
    assert_eq!(info.method_codes[1], (0, 0));
}

#[test]
fn const_code_parse_collects_data_and_code_ranges() {
    let data = sample_class();
    let info = class_const_code_parse(&data).unwrap();
    let ranges: Vec<(usize, usize)> = info.constants.iter().map(|r| (r.start, r.end)).collect();
    assert_eq!(
        ranges,
        vec![(11, 19), (23, 29), (30, 42), (43, 47), (48, 52), (53, 61), (62, 70), (93, 105)]
    );
    assert_eq!(info.constants_index, vec![0, 0, 0, 1, 2, 3, 4, 5, 6, 0, 0, 0, 0, 0, 7, 0]);
    assert_eq!(info.codes, vec![DataRange { start: 152, end: 183 }]);
    assert_eq!(&data[152..183], code_payload().as_slice());
}

#[test]
fn const_code_parse_without_code_text_fails() {
    let data = vec![
        0xCA, 0xFE, 0xBA, 0xBE, 0, 0, 0, 52, 0, 2, 1, 0, 1, b'X', 0, 0x21, 0, 0, 0, 0, 0, 0, 0, 0,
        0, 0, 0, 0,
    ];
    assert_eq!(class_const_code_parse(&data).unwrap_err().kind, ErrorKind::Other);
}

#[test]
fn scanners_report_reads_past_the_end() {
    let data = sample_class();
    for k in [0usize, 9, 15, 100, 120, 150, 190, 200] {
        let cut = &data[..k];
        assert_eq!(
            class_scan::fast_scan_class(cut, &[], true).unwrap_err().kind,
            ErrorKind::IndexOutOfRange,
            "cut at {}",
            k
        );
        assert_eq!(
            class_attr_check::fast_scan_class(cut, &[], true).unwrap_err().kind,
            ErrorKind::IndexOutOfRange
        );
    }
    assert_eq!(
        class_const_code_parse(&data[..60]).unwrap_err().kind,
        ErrorKind::IndexOutOfRange
    );
}

#[test]
fn scanners_stop_at_unknown_tags() {
    let mut data = sample_class();
    data[10] = 2;
    assert_eq!(
        class_scan::fast_scan_class(&data, &[], true).unwrap_err().kind,
        ErrorKind::UnknownConstantTag(2)
    );
    assert_eq!(
        class_attr_check::fast_scan_class(&data, &[], true).unwrap_err().kind,
        ErrorKind::UnknownConstantTag(2)
    );
    assert_eq!(class_const_code_parse(&data).unwrap_err().kind, ErrorKind::UnknownConstantTag(2));
}

#[test]
fn skip_members_moves_past_fields() {
    let data = sample_class();
    let mut index = 118;
    class_attr_check::handle_field_or_method(&data, &mut index).unwrap();
    assert_eq!(index, 136);
    let mut index = 118;
    class_scan::handle_field_or_method(&data, &mut index).unwrap();
    assert_eq!(index, 136);
    let mut index = 200;
    assert_eq!(
        class_attr_check::handle_field_or_method(&data, &mut index).unwrap_err().kind,
        ErrorKind::IndexOutOfRange
    );
}

#[test]
fn get_numbers_from_data() {
    let data = [0x12u8, 0x34, 0x56, 0x78, 0x9a];
    let mut i = 0;
    assert_eq!(class_attr_check::get_u16_from_data(&data, &mut i).unwrap(), 0x1234);
    assert_eq!(i, 2);
    let mut i = 1;
    assert_eq!(class_attr_check::get_u32_from_data(&data, &mut i).unwrap(), 0x3456789a);
    assert_eq!(i, 5);
    let mut i = 4;
    assert_eq!(
        class_attr_check::get_u16_from_data(&data, &mut i).unwrap_err().kind,
        ErrorKind::IndexOutOfRange
    );
    let mut i = usize::MAX;
    assert_eq!(
        class_attr_check::get_u32_from_data(&data, &mut i).unwrap_err().kind,
        ErrorKind::IndexOutOfRange
    );
}

#[test]
fn big_endian_from_short_slices() {
    assert_eq!(bytes_to_u16_be(&[]), 0);
    assert_eq!(bytes_to_u16_be(&[0x12]), 0x12);
    assert_eq!(bytes_to_u16_be(&[0x12, 0x34, 0x56]), 0x1234);
    assert_eq!(bytes_to_u32_be(&[]), 0);
    assert_eq!(bytes_to_u32_be(&[1, 2, 3]), 0x010203);
    assert_eq!(bytes_to_u32_be(&[0xff, 0xee, 0xdd, 0xcc, 0xbb]), 0xffeeddcc);
}

#[test]
fn reader_reads_big_endian_values() {
    let bytes = [0xff, 0xff, 0xff, 0xfe, 0x80, 0, 0, 0, 0, 0, 0, 0, 0, 3, b'a', b'b', b'c'];
    let mut r = DataReader::new(&bytes);
    assert_eq!(r.read_i32("i").unwrap(), -2);
    assert_eq!(r.read_i64("l").unwrap(), i64::MIN);
    assert_eq!(r.read_bytes_with_pre_size("s").unwrap(), b"abc".to_vec());
    assert_eq!(r.position(), 17);
    assert_eq!(r.read_u8("past").unwrap_err().kind, ErrorKind::TruncatedInput);
    let mut r = DataReader::new(&bytes);
    let v: u16 = r.read_to("u16").unwrap();
    assert_eq!(v, 0xffff);
    let v: u32 = r.read_to("u32").unwrap();
    assert_eq!(v, 0xfffe8000);
}

#[test]
fn writer_writes_big_endian_values() {
    let mut w = DataWriter::new();
    w.write_i32("i", -2).unwrap();
    w.write_u64("l", 0x0102030405060708).unwrap();
    w.write_bytes_with_pre_size("s", b"hi").unwrap();
    w.write_from("b", 7u8).unwrap();
    w.write_from("w", 0x0a0bu16).unwrap();
    assert_eq!(
        w.into_bytes(),
        vec![0xff, 0xff, 0xff, 0xfe, 1, 2, 3, 4, 5, 6, 7, 8, 0, 2, b'h', b'i', 7, 0x0a, 0x0b]
    );
    let mut w = DataWriter::new();
    let big = vec![0u8; 0x10000];
    assert_eq!(w.write_bytes_with_pre_size("big", &big).unwrap_err().kind, ErrorKind::SizeOverflow);
    assert_eq!(w.len(), 0);
}

#[test]
fn free_reads_over_a_reader() {
    let bytes = [0, 2, b'o', b'k', 0xab, 0xcd, 1, 2, 3, 4, 9];
    let mut r = DataReader::new(&bytes);
    assert_eq!(read_bytes_with_pre_size(&mut r, "s").unwrap(), b"ok".to_vec());
    assert_eq!(read_class_bytes_u16(&mut r, "u16").unwrap(), 0xabcd);
    assert_eq!(read_class_bytes_u32(&mut r, "u32").unwrap(), 0x01020304);
    assert_eq!(read_class_bytes(&mut r, "rest", 2).unwrap_err().kind, ErrorKind::TruncatedInput);
    assert_eq!(read_bytes(&mut r, "rest", 1).unwrap(), vec![9]);
}

#[test]
fn lazy_value_states() {
    let mut v: LazyValue<u32> = LazyValue::default();
    assert!(!v.is_load());
    assert!(v.get().is_none());
    assert_eq!(v.to_result("x").unwrap_err().kind, ErrorKind::Missing);
    assert!(v.to_option_with_err().unwrap().is_none());
    let old = v.some(5);
    assert!(matches!(old, LazyValue::UnLoad));
    assert!(v.is_load());
    assert_eq!(v.get(), Some(5));
    assert_eq!(v.get_ref(), Some(&5));
    if let Some(x) = v.get_mut_ref() {
        *x = 6;
    }
    assert_eq!(v.to_result("x").unwrap(), 6);
    assert_eq!(v.to_option_with_err().unwrap(), Some(6));
    let old = v.err(MessageError::new("bad"));
    assert!(matches!(old, LazyValue::Loaded(6)));
    assert!(v.is_err());
    assert_eq!(v.to_result("x").unwrap_err().message(), "bad");
    assert_eq!(v.to_option_with_err().unwrap_err().kind, ErrorKind::Other);
    v.none();
    assert!(v.is_load());
    assert!(!v.is_err());
    assert!(v.get().is_none());
    let old = v.update(LazyValue::UnLoad);
    assert!(matches!(old, LazyValue::Absent));
    assert!(!v.is_load());
}

#[test]
fn errors_carry_kind_and_message() {
    let e = MessageError::new("oops");
    assert_eq!(e.kind, ErrorKind::Other);
    assert_eq!(e.message(), "oops");
    let r: Result<u8, ErrorKind> = Err(ErrorKind::TruncatedInput);
    let e = r.with_message("field").unwrap_err();
    assert_eq!(e.kind, ErrorKind::TruncatedInput);
    assert_eq!(e.message(), "field");
    let ok: Result<u8, ErrorKind> = Ok(3);
    assert_eq!(ok.with_message("field").unwrap(), 3);
}

#[test]
fn small_signed_values_round_trip() {
    let mut w = DataWriter::new();
    w.write_from("a", -3i8).unwrap();
    w.write_from("b", -2i16).unwrap();
    let bytes = w.into_bytes();
    assert_eq!(bytes, vec![0xfd, 0xff, 0xfe]);
    let mut r = DataReader::new(&bytes);
    let a: i8 = r.read_to("a").unwrap();
    let b: i16 = r.read_to("b").unwrap();
    assert_eq!((a, b), (-3, -2));
}

#[test]
fn scan_rejects_tag_zero() {
    let data = vec![
        0xCA, 0xFE, 0xBA, 0xBE, 0, 0, 0, 52, 0, 2, 0, 0, 0x21, 0, 0, 0, 0, 0, 0, 0, 0, 0, 0, 0, 0,
    ];
    assert_eq!(
        class_attr_check::fast_scan_class(&data, &[], true).unwrap_err().kind,
        ErrorKind::UnknownConstantTag(0)
    );
    assert_eq!(
        class_scan::fast_scan_class(&data, &[], true).unwrap_err().kind,
        ErrorKind::UnknownConstantTag(0)
    );
}
