//! Message types whose fields are integers, strings and bytes, decoded from
//! CDR with the codec. Each decoder states, over the codec's wire model,
//! which bytes it takes and what it returns.

use vstd::prelude::*;

use crate::cdr::{
    decode_bytes, decode_string, decode_u16, decode_u32, decode_u8, CdrDeserializer, Endianness,
};
use crate::error::BagError;

verus! {

/// Decoding a message from CDR at the cursor.
pub trait FromCdr: Sized {
    fn from_cdr(deserializer: &mut CdrDeserializer) -> Result<Self, BagError>;
}

/// builtin_interfaces/msg/Time
#[derive(Clone, Copy, Debug, PartialEq, Eq, Structural)]
pub struct Time {
    pub sec: i32,
    pub nanosec: u32,
}

/// builtin_interfaces/msg/Duration
#[derive(Clone, Copy, Debug, PartialEq, Eq, Structural)]
pub struct Duration {
    pub sec: i32,
    pub nanosec: u32,
}

/// std_msgs/msg/Header
#[derive(Clone, Debug)]
pub struct Header {
    pub stamp: Time,
    pub frame_id: String,
}

/// std_msgs/msg/String
#[derive(Clone, Debug)]
pub struct StdString {
    pub data: String,
}

/// sensor_msgs/msg/NavSatStatus
#[derive(Clone, Copy, Debug, PartialEq, Eq, Structural)]
pub struct NavSatStatus {
    pub status: i8,
    pub service: u16,
}

/// sensor_msgs/msg/PointField
#[derive(Clone, Debug)]
pub struct PointField {
    pub name: String,
    pub offset: u32,
    pub datatype: u8,
    pub count: u32,
}

/// sensor_msgs/msg/PointCloud2
#[derive(Clone, Debug)]
pub struct PointCloud2 {
    pub header: Header,
    pub height: u32,
    pub width: u32,
    pub fields: Vec<PointField>,
    pub is_bigendian: bool,
    pub point_step: u32,
    pub row_step: u32,
    pub data: Vec<u8>,
    pub is_dense: bool,
}

/// sensor_msgs/msg/Image
#[derive(Clone, Debug)]
pub struct Image {
    pub header: Header,
    pub height: u32,
    pub width: u32,
    pub encoding: String,
    pub is_bigendian: u8,
    pub step: u32,
    pub data: Vec<u8>,
}

/// Two 32-bit words at `pos`, the first read as signed.
pub open spec fn decode_sec_nanosec(data: Seq<u8>, pos: int, e: Endianness) -> Option<(i32, u32, int)> {
    match decode_u32(data, pos, e) {
        None => None,
        Some((s, q)) => match decode_u32(data, q, e) {
            None => None,
            Some((n, q2)) => Some((#[verifier::truncate] (s as i32), n, q2)),
        },
    }
}

/// A header at `pos`: its stamp, its frame id, and the position after it.
pub open spec fn decode_header(data: Seq<u8>, pos: int, e: Endianness) -> Option<(Time, Seq<char>, int)> {
    match decode_sec_nanosec(data, pos, e) {
        None => None,
        Some((s, n, q)) => match decode_string(data, q, e) {
            Err(_) => None,
            Ok((f, q2)) => Some((Time { sec: s, nanosec: n }, f, q2)),
        },
    }
}

/// A point field at `pos`: name, offset, datatype, count, and the position
/// after it.
pub open spec fn decode_point_field(data: Seq<u8>, pos: int, e: Endianness) -> Option<(Seq<char>, u32, u8, u32, int)> {
    match decode_string(data, pos, e) {
        Err(_) => None,
        Ok((name, q1)) => match decode_u32(data, q1, e) {
            None => None,
            Some((offset, q2)) => match decode_u8(data, q2) {
                None => None,
                Some((datatype, q3)) => match decode_u32(data, q3, e) {
                    None => None,
                    Some((count, q4)) => Some((name, offset, datatype, count, q4)),
                },
            },
        },
    }
}

pub open spec fn point_field_view(f: PointField) -> (Seq<char>, u32, u8, u32) {
    (f.name@, f.offset, f.datatype, f.count)
}

/// `n` point fields one after another from `pos`.
pub open spec fn decode_point_fields(data: Seq<u8>, pos: int, e: Endianness, n: nat) -> Option<(Seq<(Seq<char>, u32, u8, u32)>, int)>
    decreases n,
{
    if n == 0 {
        Some((Seq::empty(), pos))
    } else {
        match decode_point_fields(data, pos, e, (n - 1) as nat) {
            None => None,
            Some((fs, q)) => match decode_point_field(data, q, e) {
                None => None,
                Some((a, b, c, d, q2)) => Some((fs.push((a, b, c, d)), q2)),
            },
        }
    }
}

impl FromCdr for Time {
    fn from_cdr(deserializer: &mut CdrDeserializer) -> (r: Result<Time, BagError>)
        ensures
            final(deserializer).bytes() == old(deserializer).bytes(),
            final(deserializer).order() == old(deserializer).order(),
            match decode_sec_nanosec(old(deserializer).bytes(), old(deserializer).cursor(), old(deserializer).order()) {
                Some(d) => r == Ok::<Time, BagError>(Time { sec: d.0, nanosec: d.1 }) && final(deserializer).cursor() == d.2,
                None => r is Err,
            },
    {
        let sec = deserializer.read_i32()?;
        let nanosec = deserializer.read_u32()?;
        Ok(Time { sec, nanosec })
    }
}

impl FromCdr for Duration {
    fn from_cdr(deserializer: &mut CdrDeserializer) -> (r: Result<Duration, BagError>)
        ensures
            final(deserializer).bytes() == old(deserializer).bytes(),
            final(deserializer).order() == old(deserializer).order(),
            match decode_sec_nanosec(old(deserializer).bytes(), old(deserializer).cursor(), old(deserializer).order()) {
                Some(d) => r == Ok::<Duration, BagError>(Duration { sec: d.0, nanosec: d.1 }) && final(deserializer).cursor() == d.2,
                None => r is Err,
            },
    {
        let sec = deserializer.read_i32()?;
        let nanosec = deserializer.read_u32()?;
        Ok(Duration { sec, nanosec })
    }
}

impl FromCdr for Header {
    fn from_cdr(deserializer: &mut CdrDeserializer) -> (r: Result<Header, BagError>)
        ensures
            final(deserializer).bytes() == old(deserializer).bytes(),
            final(deserializer).order() == old(deserializer).order(),
            match decode_header(old(deserializer).bytes(), old(deserializer).cursor(), old(deserializer).order()) {
                Some(d) => r matches Ok(h) && h.stamp == d.0 && h.frame_id@ == d.1 && final(deserializer).cursor() == d.2,
                None => r is Err,
            },
    {
        let stamp = Time::from_cdr(deserializer)?;
        let frame_id = deserializer.read_string()?;
        Ok(Header { stamp, frame_id })
    }
}

impl FromCdr for StdString {
    fn from_cdr(deserializer: &mut CdrDeserializer) -> (r: Result<StdString, BagError>)
        ensures
            final(deserializer).bytes() == old(deserializer).bytes(),
            final(deserializer).order() == old(deserializer).order(),
            match decode_string(old(deserializer).bytes(), old(deserializer).cursor(), old(deserializer).order()) {
                Ok(d) => r matches Ok(s) && s.data@ == d.0 && final(deserializer).cursor() == d.1,
                Err(_) => r is Err,
            },
    {
        let data = deserializer.read_string()?;
        Ok(StdString { data })
    }
}

impl FromCdr for NavSatStatus {
    fn from_cdr(deserializer: &mut CdrDeserializer) -> (r: Result<NavSatStatus, BagError>)
        ensures
            final(deserializer).bytes() == old(deserializer).bytes(),
            final(deserializer).order() == old(deserializer).order(),
            match decode_u8(old(deserializer).bytes(), old(deserializer).cursor()) {
                None => r is Err,
                Some((s, q)) => match decode_u16(old(deserializer).bytes(), q, old(deserializer).order()) {
                    None => r is Err,
                    Some((v, q2)) => r == Ok::<NavSatStatus, BagError>(NavSatStatus { status: #[verifier::truncate] (s as i8), service: v })
                        && final(deserializer).cursor() == q2,
                },
            },
    {
        let status = deserializer.read_i8()?;
        let service = deserializer.read_u16()?;
        Ok(NavSatStatus { status, service })
    }
}

impl FromCdr for PointField {
    fn from_cdr(deserializer: &mut CdrDeserializer) -> (r: Result<PointField, BagError>)
        ensures
            final(deserializer).bytes() == old(deserializer).bytes(),
            final(deserializer).order() == old(deserializer).order(),
            match decode_point_field(old(deserializer).bytes(), old(deserializer).cursor(), old(deserializer).order()) {
                Some(d) => r matches Ok(f) && point_field_view(f) == (d.0, d.1, d.2, d.3) && final(deserializer).cursor() == d.4,
                None => r is Err,
            },
    {
        let name = deserializer.read_string()?;
        let offset = deserializer.read_u32()?;
        let datatype = deserializer.read_u8()?;
        let count = deserializer.read_u32()?;
        Ok(PointField { name, offset, datatype, count })
    }
}

impl FromCdr for Image {
    fn from_cdr(deserializer: &mut CdrDeserializer) -> (r: Result<Image, BagError>)
        ensures
            final(deserializer).bytes() == old(deserializer).bytes(),
            final(deserializer).order() == old(deserializer).order(),
            match decode_image(old(deserializer).bytes(), old(deserializer).cursor(), old(deserializer).order()) {
                Some(d) => r matches Ok(img) && image_view(img) == d.0 && final(deserializer).cursor() == d.1,
                None => r is Err,
            },
    {
        let header = Header::from_cdr(deserializer)?;
        let height = deserializer.read_u32()?;
        let width = deserializer.read_u32()?;
        let encoding = deserializer.read_string()?;
        let is_bigendian = deserializer.read_u8()?;
        let step = deserializer.read_u32()?;
        let data = deserializer.read_byte_sequence()?;
        Ok(Image { header, height, width, encoding, is_bigendian, step, data })
    }
}

impl FromCdr for PointCloud2 {
    fn from_cdr(deserializer: &mut CdrDeserializer) -> (r: Result<PointCloud2, BagError>)
        ensures
            final(deserializer).bytes() == old(deserializer).bytes(),
            final(deserializer).order() == old(deserializer).order(),
            match decode_point_cloud(old(deserializer).bytes(), old(deserializer).cursor(), old(deserializer).order()) {
                Some(d) => r matches Ok(pc) && point_cloud_view(pc) == d.0 && final(deserializer).cursor() == d.1,
                None => r is Err,
            },
    {
        let header = Header::from_cdr(deserializer)?;
        let height = deserializer.read_u32()?;
        let width = deserializer.read_u32()?;
        let fields = read_point_fields(deserializer)?;
        let is_bigendian = deserializer.read_bool()?;
        let point_step = deserializer.read_u32()?;
        let row_step = deserializer.read_u32()?;
        let data = deserializer.read_byte_sequence()?;
        let is_dense = deserializer.read_bool()?;
        Ok(PointCloud2 { header, height, width, fields, is_bigendian, point_step, row_step, data, is_dense })
    }
}

/// A sequence of point fields: a 32-bit count, then the fields.
fn read_point_fields(d: &mut CdrDeserializer) -> (r: Result<Vec<PointField>, BagError>)
    ensures
        final(d).bytes() == old(d).bytes(),
        final(d).order() == old(d).order(),
        match decode_point_field_seq(old(d).bytes(), old(d).cursor(), old(d).order()) {
            Some(x) => r matches Ok(v) && v@.map_values(|f: PointField| point_field_view(f)) == x.0 && final(d).cursor() == x.1,
            None => r is Err,
        },
{
    let n = d.read_u32()?;
    let ghost start = d.cursor();
    let mut v: Vec<PointField> = Vec::new();
    let mut i: u32 = 0;
    while i < n
        invariant
            i <= n,
            d.bytes() == old(d).bytes(),
            d.order() == old(d).order(),
            decode_u32(old(d).bytes(), old(d).cursor(), old(d).order()) == Some((n, start)),
            decode_point_fields(d.bytes(), start, d.order(), i as nat) == Some((v@.map_values(|f: PointField| point_field_view(f)), d.cursor())),
        decreases n - i,
    {
        let ghost before = v@;
        let f = match PointField::from_cdr(d) {
            Ok(f) => f,
            Err(err) => {
                proof {
                    lemma_point_fields_stop(d.bytes(), start, d.order(), i as nat, n as nat);
                }
                return Err(err);
            },
        };
        v.push(f);
        proof {
            assert(v@.map_values(|f: PointField| point_field_view(f)) =~= before.map_values(|f: PointField| point_field_view(f)).push(point_field_view(f)));
        }
        i = i + 1;
    }
    Ok(v)
}

/// When the fields cannot be decoded past the `i`-th, no longer run of
/// them can be either.
proof fn lemma_point_fields_stop(data: Seq<u8>, pos: int, e: Endianness, i: nat, n: nat)
    requires
        i < n,
        decode_point_fields(data, pos, e, i) matches Some(x) && decode_point_field(data, x.1, e) is None,
    ensures
        decode_point_fields(data, pos, e, n) is None,
    decreases n - i,
{
    if n > i + 1 {
        lemma_point_fields_stop(data, pos, e, i, (n - 1) as nat);
    }
}

/// A point-field sequence at `pos`: its fields and the position after it.
pub open spec fn decode_point_field_seq(data: Seq<u8>, pos: int, e: Endianness) -> Option<(Seq<(Seq<char>, u32, u8, u32)>, int)> {
    match decode_u32(data, pos, e) {
        None => None,
        Some((n, q)) => decode_point_fields(data, q, e, n as nat),
    }
}

/// What an image holds, with its strings and bytes as sequences.
pub open spec fn image_view(img: Image) -> (Time, Seq<char>, u32, u32, Seq<char>, u8, u32, Seq<u8>) {
    (img.header.stamp, img.header.frame_id@, img.height, img.width, img.encoding@, img.is_bigendian, img.step, img.data@)
}

/// An image at `pos` and the position after it.
pub open spec fn decode_image(data: Seq<u8>, pos: int, e: Endianness) -> Option<((Time, Seq<char>, u32, u32, Seq<char>, u8, u32, Seq<u8>), int)> {
    match decode_header(data, pos, e) {
        None => None,
        Some((stamp, frame, q1)) => match decode_u32(data, q1, e) {
            None => None,
            Some((height, q2)) => match decode_u32(data, q2, e) {
                None => None,
                Some((width, q3)) => match decode_string(data, q3, e) {
                    Err(_) => None,
                    Ok((encoding, q4)) => match decode_u8(data, q4) {
                        None => None,
                        Some((big, q5)) => match decode_u32(data, q5, e) {
                            None => None,
                            Some((step, q6)) => match decode_bytes(data, q6, e) {
                                None => None,
                                Some((bytes, q7)) => Some(((stamp, frame, height, width, encoding, big, step, bytes), q7)),
                            },
                        },
                    },
                },
            },
        },
    }
}

/// What a point cloud holds, with its strings, fields and bytes as
/// sequences.
pub open spec fn point_cloud_view(pc: PointCloud2) -> (Time, Seq<char>, u32, u32, Seq<(Seq<char>, u32, u8, u32)>, bool, u32, u32, Seq<u8>, bool) {
    (
        pc.header.stamp,
        pc.header.frame_id@,
        pc.height,
        pc.width,
        pc.fields@.map_values(|f: PointField| point_field_view(f)),
        pc.is_bigendian,
        pc.point_step,
        pc.row_step,
        pc.data@,
        pc.is_dense,
    )
}

/// A point cloud at `pos` and the position after it.
pub open spec fn decode_point_cloud(data: Seq<u8>, pos: int, e: Endianness) -> Option<((Time, Seq<char>, u32, u32, Seq<(Seq<char>, u32, u8, u32)>, bool, u32, u32, Seq<u8>, bool), int)> {
    match decode_header(data, pos, e) {
        None => None,
        Some((stamp, frame, q1)) => match decode_u32(data, q1, e) {
            None => None,
            Some((height, q2)) => match decode_u32(data, q2, e) {
                None => None,
                Some((width, q3)) => match decode_point_field_seq(data, q3, e) {
                    None => None,
                    Some((fields, q4)) => match decode_u8(data, q4) {
                        None => None,
                        Some((big, q5)) => match decode_u32(data, q5, e) {
                            None => None,
                            Some((point_step, q6)) => match decode_u32(data, q6, e) {
                                None => None,
                                Some((row_step, q7)) => match decode_bytes(data, q7, e) {
                                    None => None,
                                    Some((bytes, q8)) => match decode_u8(data, q8) {
                                        None => None,
                                        Some((dense, q9)) => Some(((stamp, frame, height, width, fields, big != 0, point_step, row_step, bytes, dense != 0), q9)),
                                    },
                                },
                            },
                        },
                    },
                },
            },
        },
    }
}

} // verus!
