use rosbags_rs::cdr::{CdrDeserializer, CdrHeader, CdrSerializer, Endianness};
use rosbags_rs::error::{BagError, CodecFault};

#[test]
fn test_cdr_header_parsing() {
    let header_le = CdrHeader::parse(&[0x00, 0x01, 0x00, 0x00]).unwrap();
    assert_eq!(header_le.endianness, Endianness::LittleEndian);
    assert_eq!(header_le.encapsulation_kind, 0);

    let header_be = CdrHeader::parse(&[0x00, 0x00, 0x00, 0x00]).unwrap();
    assert_eq!(header_be.endianness, Endianness::BigEndian);
    assert_eq!(header_be.encapsulation_kind, 0);
}

#[test]
fn header_rejects_bad_flag_and_length() {
    assert!(matches!(
        CdrHeader::parse(&[0x00, 0x02, 0x00, 0x00]),
        Err(BagError::CdrDeserialization { fault: CodecFault::InvalidEndianness, .. })
    ));
    assert!(matches!(
        CdrHeader::parse(&[0x00, 0x01, 0x00]),
        Err(BagError::CdrDeserialization { fault: CodecFault::HeaderTooShort, .. })
    ));
    let h = CdrHeader::parse(&[0x00, 0x01, 0x07, 0x00]).unwrap();
    assert_eq!(h.encapsulation_kind, 7);
}

#[test]
fn deserializer_rejects_short_buffer() {
    let data = [0x00u8, 0x01];
    assert!(matches!(
        CdrDeserializer::new(&data),
        Err(BagError::CdrDeserialization { fault: CodecFault::HeaderTooShort, position: 0, data_length: 2 })
    ));
}

#[test]
fn string_decode_hello() {
    let data = [
        0x00u8, 0x01, 0x00, 0x00, 0x06, 0x00, 0x00, 0x00, 0x48, 0x65, 0x6C, 0x6C, 0x6F, 0x00,
    ];
    let mut d = CdrDeserializer::new(&data).unwrap();
    assert_eq!(d.position(), 4);
    assert_eq!(d.read_string().unwrap(), "Hello");
    assert_eq!(d.position(), 14);
    assert!(!d.has_remaining(1));
}

#[test]
fn empty_string_consumes_length_only() {
    let data = [0x00u8, 0x01, 0x00, 0x00, 0x00, 0x00, 0x00, 0x00];
    let mut d = CdrDeserializer::new(&data).unwrap();
    assert_eq!(d.read_string().unwrap(), "");
    assert_eq!(d.position(), 8);
}

#[test]
fn string_without_nul_is_accepted() {
    let data = [0x00u8, 0x01, 0x00, 0x00, 0x02, 0x00, 0x00, 0x00, b'h', b'i'];
    let mut d = CdrDeserializer::new(&data).unwrap();
    assert_eq!(d.read_string().unwrap(), "hi");
    assert_eq!(d.position(), 10);
}

#[test]
fn string_faults() {
    let long = [0x00u8, 0x01, 0x00, 0x00, 0x09, 0x00, 0x00, 0x00, b'h', b'i'];
    let mut d = CdrDeserializer::new(&long).unwrap();
    assert!(matches!(
        d.read_string(),
        Err(BagError::CdrDeserialization { fault: CodecFault::StringTruncated, position: 4, data_length: 10 })
    ));
    assert_eq!(d.position(), 4);
    let bad = [0x00u8, 0x01, 0x00, 0x00, 0x02, 0x00, 0x00, 0x00, 0xFF, 0xFE];
    let mut d = CdrDeserializer::new(&bad).unwrap();
    assert!(matches!(
        d.read_string(),
        Err(BagError::CdrDeserialization { fault: CodecFault::InvalidUtf8, .. })
    ));
}

#[test]
fn alignment_of_int32_then_int64() {
    let mut s = CdrSerializer::new(Endianness::LittleEndian);
    s.write_i32(1);
    s.write_i64(2);
    let bytes = s.into_bytes();
    assert_eq!(bytes.len(), 20);
    assert_eq!(&bytes[0..4], &[0x00, 0x01, 0x00, 0x00]);
    assert_eq!(&bytes[4..8], &[1, 0, 0, 0]);
    assert_eq!(&bytes[8..12], &[0, 0, 0, 0]);
    assert_eq!(&bytes[12..20], &[2, 0, 0, 0, 0, 0, 0, 0]);
    let mut d = CdrDeserializer::new(&bytes).unwrap();
    assert_eq!(d.read_i32().unwrap(), 1);
    assert_eq!(d.read_i64().unwrap(), 2);
    assert_eq!(d.position(), 20);
}

#[test]
fn primitives_round_trip_both_orders() {
    for e in [Endianness::LittleEndian, Endianness::BigEndian] {
        let mut s = CdrSerializer::new(e);
        s.write_u8(0xAB);
        s.write_bool(true);
        s.write_u16(0xBEEF);
        s.write_u32(0xDEADBEEF);
        s.write_i32(-5);
        s.write_u64(0x0102030405060708);
        s.write_i64(-9_000_000_000);
        s.write_string("ros");
        s.write_byte_sequence(&[9, 8, 7]);
        s.write_u8(0xFF);
        let bytes = s.into_bytes();
        let mut d = CdrDeserializer::new(&bytes).unwrap();
        assert_eq!(d.read_u8().unwrap(), 0xAB);
        assert!(d.read_bool().unwrap());
        assert_eq!(d.read_u16().unwrap(), 0xBEEF);
        assert_eq!(d.read_u32().unwrap(), 0xDEADBEEF);
        assert_eq!(d.read_i32().unwrap(), -5);
        assert_eq!(d.read_u64().unwrap(), 0x0102030405060708);
        assert_eq!(d.read_i64().unwrap(), -9_000_000_000);
        assert_eq!(d.read_string().unwrap(), "ros");
        assert_eq!(d.read_byte_sequence().unwrap(), vec![9, 8, 7]);
        assert_eq!(d.read_i8().unwrap(), -1);
        assert!(!d.has_remaining(1));
    }
}

#[test]
fn big_endian_layout() {
    let mut s = CdrSerializer::new(Endianness::BigEndian);
    s.write_u32(0x01020304);
    let bytes = s.into_bytes();
    assert_eq!(bytes, vec![0x00, 0x00, 0x00, 0x00, 0x01, 0x02, 0x03, 0x04]);
    let mut d = CdrDeserializer::new(&bytes).unwrap();
    assert_eq!(d.read_u16().unwrap(), 0x0102);
    assert_eq!(d.read_i16().unwrap(), 0x0304);
}

#[test]
fn truncated_read_leaves_cursor() {
    let data = [0x00u8, 0x01, 0x00, 0x00, 0x01, 0x02];
    let mut d = CdrDeserializer::new(&data).unwrap();
    assert!(matches!(
        d.read_u32(),
        Err(BagError::CdrDeserialization { fault: CodecFault::Truncated, position: 4, data_length: 6 })
    ));
    assert_eq!(d.position(), 4);
    assert_eq!(d.read_u16().unwrap(), 0x0201);
    assert!(d.read_u8().is_err());
    assert_eq!(d.data_len(), 6);
    assert_eq!(d.data(), &data);
}

#[test]
fn byte_sequence_truncated() {
    let data = [0x00u8, 0x01, 0x00, 0x00, 0x05, 0x00, 0x00, 0x00, 1, 2];
    let mut d = CdrDeserializer::new(&data).unwrap();
    assert!(d.read_byte_sequence().is_err());
    assert_eq!(d.position(), 4);
}

#[test]
fn sequence_of_elements() {
    let mut s = CdrSerializer::new(Endianness::LittleEndian);
    s.write_u32(3);
    s.write_u16(7);
    s.write_u16(8);
    s.write_u16(9);
    let bytes = s.into_bytes();
    let mut d = CdrDeserializer::new(&bytes).unwrap();
    let v = d.read_sequence(|mut e| e.read_u16().map(|x| (x, e))).unwrap();
    assert_eq!(v, vec![7, 8, 9]);
    assert_eq!(d.position(), 14);
    let empty = [0x00u8, 0x01, 0x00, 0x00, 0, 0, 0, 0];
    let mut d = CdrDeserializer::new(&empty).unwrap();
    assert!(d.read_sequence(|mut e| e.read_u16().map(|x| (x, e))).unwrap().is_empty());
    assert_eq!(d.position(), 8);
    let short = [0x00u8, 0x01, 0x00, 0x00, 2, 0, 0, 0, 1, 0];
    let mut d = CdrDeserializer::new(&short).unwrap();
    assert!(d.read_sequence(|mut e| e.read_u16().map(|x| (x, e))).is_err());
}
