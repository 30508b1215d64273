use rosbags_rs::cdr::{CdrDeserializer, CdrSerializer, Endianness};
use rosbags_rs::messages::{
    Duration, FromCdr, Header, Image, NavSatStatus, PointCloud2, PointField, StdString, Time,
};

fn header_bytes(s: &mut CdrSerializer) {
    s.write_i32(-3);
    s.write_u32(500);
    s.write_string("base_link");
}

#[test]
fn decode_std_string_and_time() {
    let mut s = CdrSerializer::new(Endianness::LittleEndian);
    s.write_string("hi");
    let bytes = s.into_bytes();
    let mut d = CdrDeserializer::new(&bytes).unwrap();
    assert_eq!(StdString::from_cdr(&mut d).unwrap().data, "hi");

    let mut s = CdrSerializer::new(Endianness::BigEndian);
    s.write_i32(12);
    s.write_u32(34);
    s.write_i32(-1);
    s.write_u32(2);
    let bytes = s.into_bytes();
    let mut d = CdrDeserializer::new(&bytes).unwrap();
    assert_eq!(Time::from_cdr(&mut d).unwrap(), Time { sec: 12, nanosec: 34 });
    assert_eq!(Duration::from_cdr(&mut d).unwrap(), Duration { sec: -1, nanosec: 2 });
    assert!(Time::from_cdr(&mut d).is_err());
}

#[test]
fn decode_header_and_status() {
    let mut s = CdrSerializer::new(Endianness::LittleEndian);
    header_bytes(&mut s);
    s.write_u8(0xFF);
    s.write_u16(3);
    let bytes = s.into_bytes();
    let mut d = CdrDeserializer::new(&bytes).unwrap();
    let h = Header::from_cdr(&mut d).unwrap();
    assert_eq!(h.stamp, Time { sec: -3, nanosec: 500 });
    assert_eq!(h.frame_id, "base_link");
    assert_eq!(NavSatStatus::from_cdr(&mut d).unwrap(), NavSatStatus { status: -1, service: 3 });
}

#[test]
fn decode_image() {
    let mut s = CdrSerializer::new(Endianness::LittleEndian);
    header_bytes(&mut s);
    s.write_u32(2);
    s.write_u32(3);
    s.write_string("mono8");
    s.write_u8(0);
    s.write_u32(3);
    s.write_byte_sequence(&[1, 2, 3, 4, 5, 6]);
    let bytes = s.into_bytes();
    let mut d = CdrDeserializer::new(&bytes).unwrap();
    let img = Image::from_cdr(&mut d).unwrap();
    assert_eq!((img.height, img.width, img.step), (2, 3, 3));
    assert_eq!(img.encoding, "mono8");
    assert_eq!(img.data, vec![1, 2, 3, 4, 5, 6]);
    assert!(!d.has_remaining(1));
}

#[test]
fn decode_point_cloud() {
    let mut s = CdrSerializer::new(Endianness::LittleEndian);
    header_bytes(&mut s);
    s.write_u32(1);
    s.write_u32(2);
    s.write_u32(2);
    for (name, offset) in [("x", 0u32), ("y", 4u32)] {
        s.write_string(name);
        s.write_u32(offset);
        s.write_u8(7);
        s.write_u32(1);
    }
    s.write_bool(false);
    s.write_u32(8);
    s.write_u32(16);
    s.write_byte_sequence(&[0; 16]);
    s.write_bool(true);
    let bytes = s.into_bytes();
    let mut d = CdrDeserializer::new(&bytes).unwrap();
    let pc = PointCloud2::from_cdr(&mut d).unwrap();
    assert_eq!(pc.fields.len(), 2);
    assert_eq!(pc.fields[1].name, "y");
    assert_eq!(pc.fields[1].offset, 4);
    assert_eq!(pc.row_step, 16);
    assert!(pc.is_dense);
    let cut = &bytes[..bytes.len() - 3];
    let mut d = CdrDeserializer::new(cut).unwrap();
    assert!(PointCloud2::from_cdr(&mut d).is_err());
    let mut s = CdrSerializer::new(Endianness::LittleEndian);
    s.write_string("z");
    let bytes = s.into_bytes();
    let mut d = CdrDeserializer::new(&bytes).unwrap();
    assert!(PointField::from_cdr(&mut d).is_err());
}
