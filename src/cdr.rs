//! CDR (Common Data Representation): the encapsulation header, an aligned,
//! endianness-aware decoder over a borrowed byte buffer, and the matching
//! encoder.
//!
//! Alignment is computed from the end of the four-byte header: a value of
//! width `w` starts at a buffer offset `p` with `p - 4` a multiple of `w`,
//! as the encapsulation's other implementations lay it out.

use vstd::bytes::*;
use vstd::prelude::*;
use vstd::slice::*;
use vstd::utf8::{decode_utf8, encode_utf8, valid_utf8};

use crate::error::{BagError, CodecFault};

verus! {

/// Byte order of the values that follow the header.
#[derive(Clone, Copy, Debug, PartialEq, Eq, Structural)]
pub enum Endianness {
    LittleEndian,
    BigEndian,
}

/// The four-byte encapsulation header.
#[derive(Clone, Copy, Debug, PartialEq, Eq, Structural)]
pub struct CdrHeader {
    pub endianness: Endianness,
    pub encapsulation_kind: u8,
}

// ---------------------------------------------------------------------------
// The wire model
// ---------------------------------------------------------------------------

/// The header that four bytes denote, if any: byte 1 is the endianness flag
/// (0 big, 1 little), byte 2 the encapsulation kind.
pub open spec fn header_of(b: Seq<u8>) -> Option<CdrHeader> {
    if b.len() != 4 || (b[1] != 0 && b[1] != 1) {
        None
    } else {
        Some(
            CdrHeader {
                endianness: if b[1] == 1 {
                    Endianness::LittleEndian
                } else {
                    Endianness::BigEndian
                },
                encapsulation_kind: b[2],
            },
        )
    }
}

/// The flag byte that stands for an endianness in the header.
pub open spec fn endianness_flag(e: Endianness) -> u8 {
    if e == Endianness::LittleEndian {
        1
    } else {
        0
    }
}

/// Number of zero bytes that bring buffer offset `pos` to an alignment of
/// `a` counted from the end of the header.
pub open spec fn pad_len(pos: int, a: int) -> int {
    (a - (pos - 4) % a) % a
}

/// `pos` rounded up to the next aligned offset.
pub open spec fn aligned(pos: int, a: int) -> int {
    pos + pad_len(pos, a)
}

/// Bytes of a value as they stand on the wire, given its little-endian bytes
/// (or the reverse: the map is its own inverse).
pub open spec fn in_order(b: Seq<u8>, e: Endianness) -> Seq<u8> {
    if e == Endianness::LittleEndian {
        b
    } else {
        b.reverse()
    }
}

/// The little-endian bytes of the `w`-byte value at the next position
/// aligned to `w`, and the position after it; `None` when the buffer ends
/// first.
pub open spec fn take_word(data: Seq<u8>, pos: int, w: int, e: Endianness) -> Option<(Seq<u8>, int)> {
    let p = aligned(pos, w);
    if p + w <= data.len() {
        Some((in_order(data.subrange(p, p + w), e), p + w))
    } else {
        None
    }
}

/// Encoding of a `le.len()`-byte value at position `pos`: padding, then its
/// bytes in wire order.
pub open spec fn put_word(pos: int, le: Seq<u8>, e: Endianness) -> Seq<u8> {
    Seq::new(pad_len(pos, le.len() as int) as nat, |i: int| 0u8) + in_order(le, e)
}

pub open spec fn decode_u8(data: Seq<u8>, pos: int) -> Option<(u8, int)> {
    if pos < data.len() {
        Some((data[pos], pos + 1))
    } else {
        None
    }
}

pub open spec fn decode_u16(data: Seq<u8>, pos: int, e: Endianness) -> Option<(u16, int)> {
    match take_word(data, pos, 2, e) {
        Some((b, q)) => Some((spec_u16_from_le_bytes(b), q)),
        None => None,
    }
}

pub open spec fn decode_u32(data: Seq<u8>, pos: int, e: Endianness) -> Option<(u32, int)> {
    match take_word(data, pos, 4, e) {
        Some((b, q)) => Some((spec_u32_from_le_bytes(b), q)),
        None => None,
    }
}

pub open spec fn decode_u64(data: Seq<u8>, pos: int, e: Endianness) -> Option<(u64, int)> {
    match take_word(data, pos, 8, e) {
        Some((b, q)) => Some((spec_u64_from_le_bytes(b), q)),
        None => None,
    }
}

/// The bytes of a string whose length field says `len` and whose bytes start
/// at `q`: a final NUL is dropped when there is one.
pub open spec fn string_body(data: Seq<u8>, q: int, len: int) -> Seq<u8> {
    if data[q + len - 1] == 0 {
        data.subrange(q, q + len - 1)
    } else {
        data.subrange(q, q + len)
    }
}

/// Outcome of decoding a string at `pos`: its characters and the position
/// after it, or the fault.
pub open spec fn decode_string(data: Seq<u8>, pos: int, e: Endianness) -> Result<(Seq<char>, int), CodecFault> {
    match decode_u32(data, pos, e) {
        None => Err(CodecFault::Truncated),
        Some((len, q)) => if len == 0 {
            Ok((Seq::<char>::empty(), q))
        } else if q + len > data.len() {
            Err(CodecFault::StringTruncated)
        } else if !valid_utf8(string_body(data, q, len as int)) {
            Err(CodecFault::InvalidUtf8)
        } else {
            Ok((decode_utf8(string_body(data, q, len as int)), q + len))
        },
    }
}

/// Outcome of decoding a byte sequence (a length, then that many bytes).
pub open spec fn decode_bytes(data: Seq<u8>, pos: int, e: Endianness) -> Option<(Seq<u8>, int)> {
    match decode_u32(data, pos, e) {
        None => None,
        Some((len, q)) => if q + len > data.len() {
            None
        } else {
            Some((data.subrange(q, q + len), q + len))
        },
    }
}

/// The error reported for a fault at `pos` in a buffer of `len` bytes.
pub open spec fn codec_error(fault: CodecFault, pos: int, len: int) -> BagError {
    BagError::CdrDeserialization { fault, position: pos as usize, data_length: len as usize }
}

pub open spec fn encode_u8(v: u8) -> Seq<u8> {
    seq![v]
}

pub open spec fn encode_u16(pos: int, v: u16, e: Endianness) -> Seq<u8> {
    put_word(pos, spec_u16_to_le_bytes(v), e)
}

pub open spec fn encode_u32(pos: int, v: u32, e: Endianness) -> Seq<u8> {
    put_word(pos, spec_u32_to_le_bytes(v), e)
}

pub open spec fn encode_u64(pos: int, v: u64, e: Endianness) -> Seq<u8> {
    put_word(pos, spec_u64_to_le_bytes(v), e)
}

/// A string as written: its length with the terminating NUL, its UTF-8
/// bytes, the NUL.
pub open spec fn encode_string(pos: int, s: Seq<char>, e: Endianness) -> Seq<u8> {
    encode_u32(pos, (encode_utf8(s).len() + 1) as u32, e) + encode_utf8(s) + seq![0u8]
}

/// A string written without the terminating NUL: the length is the byte
/// count.
pub open spec fn encode_string_bare(pos: int, s: Seq<char>, e: Endianness) -> Seq<u8> {
    encode_u32(pos, encode_utf8(s).len() as u32, e) + encode_utf8(s)
}

pub open spec fn encode_bytes(pos: int, b: Seq<u8>, e: Endianness) -> Seq<u8> {
    encode_u32(pos, b.len() as u32, e) + b
}

// ---------------------------------------------------------------------------
// Executable helpers
// ---------------------------------------------------------------------------

/// Zero bytes needed before a `w`-byte value at `pos`.
fn padding(pos: usize, w: usize) -> (r: usize)
    requires
        w == 1 || w == 2 || w == 4 || w == 8,
    ensures
        r == pad_len(pos as int, w as int),
        r < w,
{
    let rel = if w == 8 {
        (pos % 8 + 4) % 8
    } else {
        pos % w
    };
    assert(rel == (pos as int - 4) % (w as int));
    (w - rel) % w
}

/// The bytes of `b` in the order that the other end of the wire wants.
fn reorder(b: &[u8], e: Endianness) -> (r: Vec<u8>)
    ensures
        r@ == in_order(b@, e),
{
    if e == Endianness::LittleEndian {
        return slice_to_vec(b);
    }
    let mut r: Vec<u8> = Vec::new();
    let n = b.len();
    let mut i: usize = n;
    while i > 0
        invariant
            i <= n,
            n == b@.len(),
            r@.len() == n - i,
            forall|k: int| 0 <= k < n - i ==> r@[k] == b@[n - 1 - k],
        decreases i,
    {
        i = i - 1;
        r.push(b[i]);
    }
    assert(r@ =~= b@.reverse());
    r
}

impl CdrHeader {
    /// Parse the encapsulation header from exactly four bytes.
    pub fn parse(header_bytes: &[u8]) -> (r: Result<CdrHeader, BagError>)
        ensures
            header_of(header_bytes@) matches Some(h) ==> r == Ok::<CdrHeader, BagError>(h),
            header_bytes@.len() != 4 ==> r == Err::<CdrHeader, BagError>(
                BagError::CdrDeserialization {
                    fault: CodecFault::HeaderTooShort,
                    position: 0,
                    data_length: header_bytes@.len() as usize,
                },
            ),
            header_bytes@.len() == 4 && header_of(header_bytes@) is None ==> r
                == Err::<CdrHeader, BagError>(
                BagError::CdrDeserialization {
                    fault: CodecFault::InvalidEndianness,
                    position: 1,
                    data_length: 4,
                },
            ),
    {
        if header_bytes.len() != 4 {
            return Err(
                BagError::CdrDeserialization {
                    fault: CodecFault::HeaderTooShort,
                    position: 0,
                    data_length: header_bytes.len(),
                },
            );
        }
        let endianness = if header_bytes[1] == 0 {
            Endianness::BigEndian
        } else if header_bytes[1] == 1 {
            Endianness::LittleEndian
        } else {
            return Err(
                BagError::CdrDeserialization {
                    fault: CodecFault::InvalidEndianness,
                    position: 1,
                    data_length: 4,
                },
            );
        };
        Ok(CdrHeader { endianness, encapsulation_kind: header_bytes[2] })
    }
}

/// `ds` is a chain of decoder states with `xs` read between them: element
/// `i` is what `read_element` returned from `ds[i]`, leaving `ds[i + 1]`.
pub open spec fn read_chain<'a, T, F: Fn(CdrDeserializer<'a>) -> Result<(T, CdrDeserializer<'a>), BagError>>(
    read_element: F,
    ds: Seq<CdrDeserializer<'a>>,
    xs: Seq<T>,
) -> bool {
    &&& ds.len() == xs.len() + 1
    &&& forall|i: int|
        0 <= i < xs.len() ==> #[trigger] read_element.ensures((ds[i],), Ok((xs[i], ds[i + 1])))
}

/// `d` is the decoder `start` after its sequence length was read: same
/// buffer and order, cursor at `q`.
pub open spec fn starts_after_length<'a>(d: CdrDeserializer<'a>, start: CdrDeserializer<'a>, q: int) -> bool {
    d.bytes() == start.bytes() && d.order() == start.order() && d.cursor() == q
}


/// Decoder over a borrowed CDR buffer: a cursor and the byte order that the
/// header announced.
#[derive(Clone, Copy)]
pub struct CdrDeserializer<'a> {
    data: &'a [u8],
    pos: usize,
    endianness: Endianness,
}

impl<'a> CdrDeserializer<'a> {
    #[verifier::type_invariant]
    spec fn inv(&self) -> bool {
        4 <= self.pos <= self.data@.len()
    }

    /// The whole buffer, header included.
    pub closed spec fn bytes(&self) -> Seq<u8> {
        self.data@
    }

    /// The cursor: offset of the next byte to read.
    pub closed spec fn cursor(&self) -> int {
        self.pos as int
    }

    /// The byte order announced by the header.
    pub closed spec fn order(&self) -> Endianness {
        self.endianness
    }

    /// Start decoding `data`: parse its header and put the cursor at offset 4.
    pub fn new(data: &'a [u8]) -> (r: Result<CdrDeserializer<'a>, BagError>)
        ensures
            data@.len() < 4 ==> r == Err::<CdrDeserializer<'a>, BagError>(
                BagError::CdrDeserialization {
                    fault: CodecFault::HeaderTooShort,
                    position: 0,
                    data_length: data@.len() as usize,
                },
            ),
            data@.len() >= 4 && header_of(data@.subrange(0, 4)) is None ==> r == Err::<
                CdrDeserializer<'a>,
                BagError,
            >(
                BagError::CdrDeserialization {
                    fault: CodecFault::InvalidEndianness,
                    position: 1,
                    data_length: 4,
                },
            ),
            data@.len() >= 4 ==> (header_of(data@.subrange(0, 4)) matches Some(h) ==> (r matches Ok(
                d,
            ) && d.bytes() == data@ && d.cursor() == 4 && d.order() == h.endianness)),
    {
        if data.len() < 4 {
            return Err(
                BagError::CdrDeserialization {
                    fault: CodecFault::HeaderTooShort,
                    position: 0,
                    data_length: data.len(),
                },
            );
        }
        let header = CdrHeader::parse(slice_subrange(data, 0, 4))?;
        Ok(CdrDeserializer { data, pos: 4, endianness: header.endianness })
    }

    /// Offset of the next byte to read.
    pub fn position(&self) -> (r: usize)
        ensures
            r == self.cursor(),
    {
        self.pos
    }

    /// Length of the whole buffer.
    pub fn data_len(&self) -> (r: usize)
        ensures
            r == self.bytes().len(),
    {
        self.data.len()
    }

    /// Whether `bytes` more bytes lie between the cursor and the end.
    pub fn has_remaining(&self, bytes: usize) -> (r: bool)
        ensures
            r == (self.cursor() + bytes <= self.bytes().len()),
    {
        proof {
            use_type_invariant(self);
        }
        bytes <= self.data.len() - self.pos
    }

    /// The whole buffer, header included.
    pub fn data(&self) -> (r: &'a [u8])
        ensures
            r@ == self.bytes(),
    {
        self.data
    }

    /// The error for a fault met with the cursor where it stands.
    fn fault(&self, fault: CodecFault) -> (r: BagError)
        ensures
            r == codec_error(fault, self.cursor(), self.bytes().len() as int),
    {
        BagError::CdrDeserialization { fault, position: self.pos, data_length: self.data.len() }
    }

    /// Align the cursor to `w` and take the `w` bytes there, in little-endian
    /// order; the cursor is left alone when the buffer is too short.
    fn read_word(&mut self, w: usize) -> (r: Result<Vec<u8>, BagError>)
        requires
            w == 1 || w == 2 || w == 4 || w == 8,
        ensures
            final(self).bytes() == old(self).bytes(),
            final(self).order() == old(self).order(),
            take_word(old(self).bytes(), old(self).cursor(), w as int, old(self).order()) matches Some(
                t,
            ) ==> r matches Ok(v) && v@ == t.0 && final(self).cursor() == t.1,
            take_word(old(self).bytes(), old(self).cursor(), w as int, old(self).order()) is None
                ==> r == Err::<Vec<u8>, BagError>(
                codec_error(CodecFault::Truncated, old(self).cursor(), old(self).bytes().len() as int),
            )
                && final(self).cursor() == old(self).cursor(),
    {
        proof {
            use_type_invariant(&*self);
        }
        let pad = padding(self.pos, w);
        let room = self.data.len() - self.pos;
        if pad > room || w > room - pad {
            return Err(self.fault(CodecFault::Truncated));
        }
        let p = self.pos + pad;
        let v = reorder(slice_subrange(self.data, p, p + w), self.endianness);
        self.pos = p + w;
        Ok(v)
    }
    /// Read one byte.
    pub fn read_u8(&mut self) -> (r: Result<u8, BagError>)
        ensures
            final(self).bytes() == old(self).bytes(),
            final(self).order() == old(self).order(),
            match decode_u8(old(self).bytes(), old(self).cursor()) {
                Some(d) => r == Ok::<u8, BagError>(d.0) && final(self).cursor() == d.1,
                None => r == Err::<u8, BagError>(
                    codec_error(CodecFault::Truncated, old(self).cursor(), old(self).bytes().len() as int),
                ) && final(self).cursor() == old(self).cursor(),
            },
    {
        proof {
            use_type_invariant(&*self);
        }
        if self.pos >= self.data.len() {
            return Err(self.fault(CodecFault::Truncated));
        }
        let v = self.data[self.pos];
        self.pos = self.pos + 1;
        Ok(v)
    }

    /// Read one byte as a signed value.
    pub fn read_i8(&mut self) -> (r: Result<i8, BagError>)
        ensures
            final(self).bytes() == old(self).bytes(),
            final(self).order() == old(self).order(),
            match decode_u8(old(self).bytes(), old(self).cursor()) {
                Some(d) => r == Ok::<i8, BagError>(#[verifier::truncate] (d.0 as i8)) && final(self).cursor() == d.1,
                None => r == Err::<i8, BagError>(
                    codec_error(CodecFault::Truncated, old(self).cursor(), old(self).bytes().len() as int),
                ) && final(self).cursor() == old(self).cursor(),
            },
    {
        let v = self.read_u8()?;
        Ok(v as i8)
    }

    /// Read a boolean: any nonzero byte is true.
    pub fn read_bool(&mut self) -> (r: Result<bool, BagError>)
        ensures
            final(self).bytes() == old(self).bytes(),
            final(self).order() == old(self).order(),
            match decode_u8(old(self).bytes(), old(self).cursor()) {
                Some(d) => r == Ok::<bool, BagError>(d.0 != 0) && final(self).cursor() == d.1,
                None => r == Err::<bool, BagError>(
                    codec_error(CodecFault::Truncated, old(self).cursor(), old(self).bytes().len() as int),
                ) && final(self).cursor() == old(self).cursor(),
            },
    {
        let v = self.read_u8()?;
        Ok(v != 0)
    }

    /// Read a 16-bit unsigned value, aligned to 2.
    pub fn read_u16(&mut self) -> (r: Result<u16, BagError>)
        ensures
            final(self).bytes() == old(self).bytes(),
            final(self).order() == old(self).order(),
            match decode_u16(old(self).bytes(), old(self).cursor(), old(self).order()) {
                Some(d) => r == Ok::<u16, BagError>(d.0) && final(self).cursor() == d.1,
                None => r == Err::<u16, BagError>(
                    codec_error(CodecFault::Truncated, old(self).cursor(), old(self).bytes().len() as int),
                ) && final(self).cursor() == old(self).cursor(),
            },
    {
        let b = self.read_word(2)?;
        let v = u16_from_le_bytes(b.as_slice());
        Ok(v)
    }

    /// Read a 16-bit signed value, aligned to 2.
    pub fn read_i16(&mut self) -> (r: Result<i16, BagError>)
        ensures
            final(self).bytes() == old(self).bytes(),
            final(self).order() == old(self).order(),
            match decode_u16(old(self).bytes(), old(self).cursor(), old(self).order()) {
                Some(d) => r == Ok::<i16, BagError>(#[verifier::truncate] (d.0 as i16)) && final(self).cursor() == d.1,
                None => r == Err::<i16, BagError>(
                    codec_error(CodecFault::Truncated, old(self).cursor(), old(self).bytes().len() as int),
                ) && final(self).cursor() == old(self).cursor(),
            },
    {
        let b = self.read_word(2)?;
        let v = u16_from_le_bytes(b.as_slice());
        Ok(v as i16)
    }

    /// Read a 32-bit unsigned value, aligned to 4.
    pub fn read_u32(&mut self) -> (r: Result<u32, BagError>)
        ensures
            final(self).bytes() == old(self).bytes(),
            final(self).order() == old(self).order(),
            match decode_u32(old(self).bytes(), old(self).cursor(), old(self).order()) {
                Some(d) => r == Ok::<u32, BagError>(d.0) && final(self).cursor() == d.1,
                None => r == Err::<u32, BagError>(
                    codec_error(CodecFault::Truncated, old(self).cursor(), old(self).bytes().len() as int),
                ) && final(self).cursor() == old(self).cursor(),
            },
    {
        let b = self.read_word(4)?;
        let v = u32_from_le_bytes(b.as_slice());
        Ok(v)
    }

    /// Read a 32-bit signed value, aligned to 4.
    pub fn read_i32(&mut self) -> (r: Result<i32, BagError>)
        ensures
            final(self).bytes() == old(self).bytes(),
            final(self).order() == old(self).order(),
            match decode_u32(old(self).bytes(), old(self).cursor(), old(self).order()) {
                Some(d) => r == Ok::<i32, BagError>(#[verifier::truncate] (d.0 as i32)) && final(self).cursor() == d.1,
                None => r == Err::<i32, BagError>(
                    codec_error(CodecFault::Truncated, old(self).cursor(), old(self).bytes().len() as int),
                ) && final(self).cursor() == old(self).cursor(),
            },
    {
        let b = self.read_word(4)?;
        let v = u32_from_le_bytes(b.as_slice());
        Ok(v as i32)
    }

    /// Read a 64-bit unsigned value, aligned to 8.
    pub fn read_u64(&mut self) -> (r: Result<u64, BagError>)
        ensures
            final(self).bytes() == old(self).bytes(),
            final(self).order() == old(self).order(),
            match decode_u64(old(self).bytes(), old(self).cursor(), old(self).order()) {
                Some(d) => r == Ok::<u64, BagError>(d.0) && final(self).cursor() == d.1,
                None => r == Err::<u64, BagError>(
                    codec_error(CodecFault::Truncated, old(self).cursor(), old(self).bytes().len() as int),
                ) && final(self).cursor() == old(self).cursor(),
            },
    {
        let b = self.read_word(8)?;
        let v = u64_from_le_bytes(b.as_slice());
        Ok(v)
    }

    /// Read a 64-bit signed value, aligned to 8.
    pub fn read_i64(&mut self) -> (r: Result<i64, BagError>)
        ensures
            final(self).bytes() == old(self).bytes(),
            final(self).order() == old(self).order(),
            match decode_u64(old(self).bytes(), old(self).cursor(), old(self).order()) {
                Some(d) => r == Ok::<i64, BagError>(#[verifier::truncate] (d.0 as i64)) && final(self).cursor() == d.1,
                None => r == Err::<i64, BagError>(
                    codec_error(CodecFault::Truncated, old(self).cursor(), old(self).bytes().len() as int),
                ) && final(self).cursor() == old(self).cursor(),
            },
    {
        let b = self.read_word(8)?;
        let v = u64_from_le_bytes(b.as_slice());
        Ok(v as i64)
    }

    /// Read a string: a 32-bit length that counts the terminating NUL, then
    /// the bytes. A missing NUL is tolerated; the bytes must be UTF-8. On a
    /// fault the cursor stays where it was.
    pub fn read_string(&mut self) -> (r: Result<String, BagError>)
        ensures
            final(self).bytes() == old(self).bytes(),
            final(self).order() == old(self).order(),
            match decode_string(old(self).bytes(), old(self).cursor(), old(self).order()) {
                Ok(d) => r matches Ok(s) && s@ == d.0 && final(self).cursor() == d.1,
                Err(f) => r == Err::<String, BagError>(
                    codec_error(f, old(self).cursor(), old(self).bytes().len() as int),
                ) && final(self).cursor() == old(self).cursor(),
            },
    {
        proof {
            use_type_invariant(&*self);
        }
        let start = self.pos;
        let length = self.read_u32()?;
        if length == 0 {
            return Ok(String::new());
        }
        proof {
            use_type_invariant(&*self);
        }
        let q = self.pos;
        let len = length as usize;
        if len > self.data.len() - q {
            self.pos = start;
            return Err(self.fault(CodecFault::StringTruncated));
        }
        let end = if self.data[q + len - 1] == 0 {
            q + len - 1
        } else {
            q + len
        };
        let body = slice_to_vec(slice_subrange(self.data, q, end));
        assert(body@ == string_body(self.data@, q as int, len as int));
        match utf8_string(body) {
            Some(s) => {
                self.pos = q + len;
                Ok(s)
            },
            None => {
                self.pos = start;
                Err(self.fault(CodecFault::InvalidUtf8))
            },
        }
    }

    /// Read a sequence: a 32-bit count, then that many elements. Each element
    /// is read by `read_element`, which takes the decoder where the element
    /// starts and returns the element with the decoder after it.
    pub fn read_sequence<T, F: Fn(CdrDeserializer<'a>) -> Result<(T, CdrDeserializer<'a>), BagError>>(
        &mut self,
        read_element: F,
    ) -> (r: Result<Vec<T>, BagError>)
        requires
            forall|d: CdrDeserializer<'a>| #[trigger] read_element.requires((d,)),
        ensures
            match decode_u32(old(self).bytes(), old(self).cursor(), old(self).order()) {
                None => r == Err::<Vec<T>, BagError>(
                    codec_error(CodecFault::Truncated, old(self).cursor(), old(self).bytes().len() as int),
                ),
                Some(h) => {
                    &&& (r matches Ok(v) ==> v@.len() == h.0 && exists|ds: Seq<CdrDeserializer<'a>>|
                        #[trigger] read_chain(read_element, ds, v@) && starts_after_length(
                            ds[0],
                            *old(self),
                            h.1,
                        ) && *final(self) == ds.last())
                    &&& (r matches Err(e) ==> exists|ds: Seq<CdrDeserializer<'a>>, xs: Seq<T>|
                        #[trigger] read_chain(read_element, ds, xs) && xs.len() < h.0
                            && starts_after_length(ds[0], *old(self), h.1)
                            && read_element.ensures((ds.last(),), Err(e)))
                },
            },
    {
        let length = match self.read_u32() {
            Ok(n) => n,
            Err(e) => {
                return Err(e);
            },
        };
        let ghost h = decode_u32(old(self).bytes(), old(self).cursor(), old(self).order());
        let ghost first = *self;
        let ghost mut ds: Seq<CdrDeserializer<'a>> = seq![*self];
        let mut v: Vec<T> = Vec::new();
        let mut i: u32 = 0;
        while i < length
            invariant
                i <= length,
                v@.len() == i,
                h == decode_u32(old(self).bytes(), old(self).cursor(), old(self).order()),
                h matches Some(hh) && hh.0 == length && starts_after_length(first, *old(self), hh.1),
                ds.len() == i + 1,
                ds[0] == first,
                ds.last() == *self,
                read_chain(read_element, ds, v@),
                forall|d: CdrDeserializer<'a>| #[trigger] read_element.requires((d,)),
            decreases length - i,
        {
            let cur = *self;
            match read_element(cur) {
                Ok((x, next)) => {
                    *self = next;
                    proof {
                        let ghost old_ds = ds;
                        ds = ds.push(next);
                        assert(read_element.ensures((old_ds.last(),), Ok((x, next))));
                    }
                    let ghost old_v = v@;
                    v.push(x);
                    proof {
                        assert(ds[0] == first);
                        assert forall|k: int| 0 <= k < v@.len() implies #[trigger] read_element.ensures(
                            (ds[k],),
                            Ok((v@[k], ds[k + 1])),
                        ) by {
                            if k < old_v.len() {
                                assert(v@[k] == old_v[k]);
                            }
                        }
                    }
                    i = i + 1;
                },
                Err(e) => {
                    proof {
                        assert(cur == ds.last());
                        assert(read_element.ensures((ds.last(),), Err::<(T, CdrDeserializer<'a>), BagError>(e)));
                        assert(read_chain(read_element, ds, v@));
                        assert(starts_after_length(ds[0], *old(self), h->Some_0.1));
                    }
                    return Err(e);
                },
            }
        }
        proof {
            assert(read_chain(read_element, ds, v@));
        }
        Ok(v)
    }

    /// Read a byte sequence: a 32-bit count, then that many bytes.
    pub fn read_byte_sequence(&mut self) -> (r: Result<Vec<u8>, BagError>)
        ensures
            final(self).bytes() == old(self).bytes(),
            final(self).order() == old(self).order(),
            match decode_bytes(old(self).bytes(), old(self).cursor(), old(self).order()) {
                Some(d) => r matches Ok(v) && v@ == d.0 && final(self).cursor() == d.1,
                None => r == Err::<Vec<u8>, BagError>(
                    codec_error(CodecFault::Truncated, old(self).cursor(), old(self).bytes().len() as int),
                ) && final(self).cursor() == old(self).cursor(),
            },
    {
        proof {
            use_type_invariant(&*self);
        }
        let start = self.pos;
        let length = self.read_u32()?;
        proof {
            use_type_invariant(&*self);
        }
        let q = self.pos;
        let len = length as usize;
        if len > self.data.len() - q {
            self.pos = start;
            return Err(self.fault(CodecFault::Truncated));
        }
        let v = slice_to_vec(slice_subrange(self.data, q, q + len));
        self.pos = q + len;
        Ok(v)
    }
}

/// Relies on `String::from_utf8`: it accepts exactly the byte strings that
/// are valid UTF-8, and the string then holds the characters they encode.
#[verifier::external_body]
fn utf8_string(b: Vec<u8>) -> (r: Option<String>)
    ensures
        r is Some <==> valid_utf8(b@),
        r matches Some(s) ==> s@ == decode_utf8(b@),
{
    String::from_utf8(b).ok()
}

/// Encoder that builds a CDR buffer, header first.
pub struct CdrSerializer {
    buf: Vec<u8>,
    endianness: Endianness,
}

impl CdrSerializer {
    /// The bytes written so far, header included.
    pub closed spec fn bytes(&self) -> Seq<u8> {
        self.buf@
    }

    /// The byte order that the header announces.
    pub closed spec fn order(&self) -> Endianness {
        self.endianness
    }

    /// Start a buffer with the header for `endianness` (encapsulation kind 0).
    pub fn new(endianness: Endianness) -> (r: CdrSerializer)
        ensures
            r.bytes() == seq![0u8, endianness_flag(endianness), 0u8, 0u8],
            r.order() == endianness,
    {
        let flag: u8 = if endianness == Endianness::LittleEndian {
            1
        } else {
            0
        };
        let mut buf: Vec<u8> = Vec::new();
        buf.push(0);
        buf.push(flag);
        buf.push(0);
        buf.push(0);
        proof {
            assert(buf@ =~= seq![0u8, endianness_flag(endianness), 0u8, 0u8]);
        }
        CdrSerializer { buf, endianness }
    }

    /// The bytes written so far, header included.
    pub fn as_bytes(&self) -> (r: &[u8])
        ensures
            r@ == self.bytes(),
    {
        self.buf.as_slice()
    }

    /// Take the finished buffer.
    pub fn into_bytes(self) -> (r: Vec<u8>)
        ensures
            r@ == self.bytes(),
    {
        self.buf
    }

    /// Pad to the alignment of `le.len()` and append `le` in wire order.
    fn put(&mut self, le: &[u8])
        requires
            le@.len() == 2 || le@.len() == 4 || le@.len() == 8,
        ensures
            final(self).order() == old(self).order(),
            final(self).bytes() == old(self).bytes() + put_word(
                old(self).bytes().len() as int,
                le@,
                old(self).order(),
            ),
    {
        let pad = padding(self.buf.len(), le.len());
        let ghost start = self.buf@;
        let mut i: usize = 0;
        while i < pad
            invariant
                i <= pad,
                self.buf@ == start + Seq::new(i as nat, |k: int| 0u8),
                self.endianness == old(self).endianness,
            decreases pad - i,
        {
            self.buf.push(0);
            i = i + 1;
            proof {
                assert(self.buf@ =~= start + Seq::new(i as nat, |k: int| 0u8));
            }
        }
        let w = reorder(le, self.endianness);
        let ghost mid = self.buf@;
        let mut j: usize = 0;
        while j < w.len()
            invariant
                j <= w@.len(),
                self.buf@ == mid + w@.subrange(0, j as int),
                self.endianness == old(self).endianness,
            decreases w@.len() - j,
        {
            self.buf.push(w[j]);
            j = j + 1;
            proof {
                assert(self.buf@ =~= mid + w@.subrange(0, j as int));
            }
        }
        proof {
            assert(w@.subrange(0, j as int) =~= w@);
            assert(self.buf@ =~= start + put_word(start.len() as int, le@, self.endianness));
        }
    }

    /// Append one byte.
    pub fn write_u8(&mut self, v: u8)
        ensures
            final(self).order() == old(self).order(),
            final(self).bytes() == old(self).bytes() + encode_u8(v),
    {
        self.buf.push(v);
    }

    /// Append a boolean as one byte, 1 for true.
    pub fn write_bool(&mut self, v: bool)
        ensures
            final(self).order() == old(self).order(),
            final(self).bytes() == old(self).bytes() + encode_u8(if v { 1u8 } else { 0u8 }),
    {
        self.buf.push(if v { 1 } else { 0 });
    }

    /// Append a u16 at the next position aligned to its width.
    pub fn write_u16(&mut self, v: u16)
        ensures
            final(self).order() == old(self).order(),
            final(self).bytes() == old(self).bytes() + encode_u16(
                old(self).bytes().len() as int,
                v,
                old(self).order(),
            ),
    {
        let le = u16_to_le_bytes(v);
        self.put(le.as_slice());
    }

    /// Append a u32 at the next position aligned to its width.
    pub fn write_u32(&mut self, v: u32)
        ensures
            final(self).order() == old(self).order(),
            final(self).bytes() == old(self).bytes() + encode_u32(
                old(self).bytes().len() as int,
                v,
                old(self).order(),
            ),
    {
        let le = u32_to_le_bytes(v);
        self.put(le.as_slice());
    }

    /// Append a i32 at the next position aligned to its width.
    pub fn write_i32(&mut self, v: i32)
        ensures
            final(self).order() == old(self).order(),
            final(self).bytes() == old(self).bytes() + encode_u32(
                old(self).bytes().len() as int,
                #[verifier::truncate] (v as u32),
                old(self).order(),
            ),
    {
        let le = u32_to_le_bytes(v as u32);
        self.put(le.as_slice());
    }

    /// Append a u64 at the next position aligned to its width.
    pub fn write_u64(&mut self, v: u64)
        ensures
            final(self).order() == old(self).order(),
            final(self).bytes() == old(self).bytes() + encode_u64(
                old(self).bytes().len() as int,
                v,
                old(self).order(),
            ),
    {
        let le = u64_to_le_bytes(v);
        self.put(le.as_slice());
    }

    /// Append a i64 at the next position aligned to its width.
    pub fn write_i64(&mut self, v: i64)
        ensures
            final(self).order() == old(self).order(),
            final(self).bytes() == old(self).bytes() + encode_u64(
                old(self).bytes().len() as int,
                #[verifier::truncate] (v as u64),
                old(self).order(),
            ),
    {
        let le = u64_to_le_bytes(v as u64);
        self.put(le.as_slice());
    }

    /// Append a string: its length counting a terminating NUL, its UTF-8
    /// bytes, the NUL.
    pub fn write_string(&mut self, s: &str)
        requires
            encode_utf8(s@).len() + 1 <= u32::MAX,
        ensures
            final(self).order() == old(self).order(),
            final(self).bytes() == old(self).bytes() + encode_string(
                old(self).bytes().len() as int,
                s@,
                old(self).order(),
            ),
    {
        let b = s.as_bytes();
        let ghost start = self.buf@;
        self.write_u32((b.len() + 1) as u32);
        self.append(b);
        self.buf.push(0);
        proof {
            assert(self.buf@ =~= start + encode_string(start.len() as int, s@, self.endianness));
        }
    }

    /// Append a byte sequence: its 32-bit count, then the bytes.
    pub fn write_byte_sequence(&mut self, b: &[u8])
        requires
            b@.len() <= u32::MAX,
        ensures
            final(self).order() == old(self).order(),
            final(self).bytes() == old(self).bytes() + encode_bytes(
                old(self).bytes().len() as int,
                b@,
                old(self).order(),
            ),
    {
        let ghost start = self.buf@;
        self.write_u32(b.len() as u32);
        self.append(b);
        proof {
            assert(self.buf@ =~= start + encode_bytes(start.len() as int, b@, self.endianness));
        }
    }

    /// Append raw bytes with no length and no padding.
    fn append(&mut self, b: &[u8])
        ensures
            final(self).order() == old(self).order(),
            final(self).bytes() == old(self).bytes() + b@,
    {
        let ghost start = self.buf@;
        let mut i: usize = 0;
        while i < b.len()
            invariant
                i <= b@.len(),
                self.buf@ == start + b@.subrange(0, i as int),
                self.endianness == old(self).endianness,
            decreases b@.len() - i,
        {
            self.buf.push(b[i]);
            i = i + 1;
            proof {
                assert(self.buf@ =~= start + b@.subrange(0, i as int));
            }
        }
        proof {
            assert(b@.subrange(0, i as int) =~= b@);
        }
    }
}

// ---------------------------------------------------------------------------
// Round trips
// ---------------------------------------------------------------------------

/// A value of width 1, 2, 4 or 8 put at the end of any buffer is taken back
/// unchanged from the same position, whatever follows it.
pub proof fn lemma_word_round_trip(prefix: Seq<u8>, le: Seq<u8>, e: Endianness, suffix: Seq<u8>)
    requires
        le.len() == 1 || le.len() == 2 || le.len() == 4 || le.len() == 8,
    ensures
        take_word(
            prefix + put_word(prefix.len() as int, le, e) + suffix,
            prefix.len() as int,
            le.len() as int,
            e,
        ) == Some((le, (prefix.len() + put_word(prefix.len() as int, le, e).len()) as int)),
{
    let n = prefix.len() as int;
    let w = le.len() as int;
    let enc = put_word(n, le, e);
    let data = prefix + enc + suffix;
    let pad = pad_len(n, w);
    let p = aligned(n, w);
    assert(0 <= pad < w);
    assert(in_order(le, e).len() == w);
    assert(enc.len() == pad + w);
    assert(data.subrange(p, p + w) =~= in_order(le, e));
    assert(in_order(in_order(le, e), e) =~= le);
}

/// Decoding a 16-bit value where it was encoded gives it back.
pub proof fn lemma_u16_round_trip(prefix: Seq<u8>, v: u16, e: Endianness, suffix: Seq<u8>)
    ensures
        decode_u16(prefix + encode_u16(prefix.len() as int, v, e) + suffix, prefix.len() as int, e)
            == Some((v, (prefix.len() + encode_u16(prefix.len() as int, v, e).len()) as int)),
{
    lemma_auto_spec_u16_to_from_le_bytes();
    lemma_word_round_trip(prefix, spec_u16_to_le_bytes(v), e, suffix);
}

/// Decoding a 32-bit value where it was encoded gives it back.
pub proof fn lemma_u32_round_trip(prefix: Seq<u8>, v: u32, e: Endianness, suffix: Seq<u8>)
    ensures
        decode_u32(prefix + encode_u32(prefix.len() as int, v, e) + suffix, prefix.len() as int, e)
            == Some((v, (prefix.len() + encode_u32(prefix.len() as int, v, e).len()) as int)),
{
    lemma_auto_spec_u32_to_from_le_bytes();
    lemma_word_round_trip(prefix, spec_u32_to_le_bytes(v), e, suffix);
}

/// Decoding a 64-bit value where it was encoded gives it back.
pub proof fn lemma_u64_round_trip(prefix: Seq<u8>, v: u64, e: Endianness, suffix: Seq<u8>)
    ensures
        decode_u64(prefix + encode_u64(prefix.len() as int, v, e) + suffix, prefix.len() as int, e)
            == Some((v, (prefix.len() + encode_u64(prefix.len() as int, v, e).len()) as int)),
{
    lemma_auto_spec_u64_to_from_le_bytes();
    lemma_word_round_trip(prefix, spec_u64_to_le_bytes(v), e, suffix);
}

/// Signed 32-bit values survive the trip through their unsigned bits.
pub proof fn lemma_i32_round_trip(prefix: Seq<u8>, v: i32, e: Endianness, suffix: Seq<u8>)
    ensures
        decode_u32(
            prefix + encode_u32(prefix.len() as int, #[verifier::truncate] (v as u32), e) + suffix,
            prefix.len() as int,
            e,
        ) matches Some(d) && #[verifier::truncate] (d.0 as i32) == v,
{
    lemma_u32_round_trip(prefix, #[verifier::truncate] (v as u32), e, suffix);
    assert(#[verifier::truncate] ((#[verifier::truncate] (v as u32)) as i32) == v) by (bit_vector);
}

/// Signed 64-bit values survive the trip through their unsigned bits.
pub proof fn lemma_i64_round_trip(prefix: Seq<u8>, v: i64, e: Endianness, suffix: Seq<u8>)
    ensures
        decode_u64(
            prefix + encode_u64(prefix.len() as int, #[verifier::truncate] (v as u64), e) + suffix,
            prefix.len() as int,
            e,
        ) matches Some(d) && #[verifier::truncate] (d.0 as i64) == v,
{
    lemma_u64_round_trip(prefix, #[verifier::truncate] (v as u64), e, suffix);
    assert(#[verifier::truncate] ((#[verifier::truncate] (v as u64)) as i64) == v) by (bit_vector);
}

/// A single byte (and so a boolean or a signed byte) is read back as written.
pub proof fn lemma_u8_round_trip(prefix: Seq<u8>, v: u8, suffix: Seq<u8>)
    ensures
        decode_u8(prefix + encode_u8(v) + suffix, prefix.len() as int) == Some(
            (v, prefix.len() + 1 as int),
        ),
{
    assert((prefix + encode_u8(v) + suffix)[prefix.len() as int] == v);
}

/// A string written with its terminating NUL decodes to the same characters,
/// and the cursor lands right after it.
pub proof fn lemma_string_round_trip(prefix: Seq<u8>, s: Seq<char>, e: Endianness, suffix: Seq<u8>)
    requires
        encode_utf8(s).len() + 1 <= u32::MAX,
    ensures
        decode_string(prefix + encode_string(prefix.len() as int, s, e) + suffix, prefix.len() as int, e)
            == Ok::<(Seq<char>, int), CodecFault>(
            (s, (prefix.len() + encode_string(prefix.len() as int, s, e).len()) as int),
        ),
{
    broadcast use vstd::utf8::encode_utf8_valid_utf8, vstd::utf8::encode_utf8_decode_utf8;

    let n = prefix.len() as int;
    let b = encode_utf8(s);
    let len = (b.len() + 1) as u32;
    let hdr = encode_u32(n, len, e);
    let rest = b + seq![0u8] + suffix;
    let data = prefix + encode_string(n, s, e) + suffix;
    assert(data =~= prefix + hdr + rest);
    lemma_u32_round_trip(prefix, len, e, rest);
    let q = n + hdr.len();
    assert(data[q + len - 1] == 0);
    assert(string_body(data, q, len as int) =~= b);
}

/// A string written without a terminating NUL (its length the byte count)
/// decodes to the same characters, provided its last byte is not itself a
/// NUL, which the decoder would take for the terminator.
pub proof fn lemma_bare_string_round_trip(
    prefix: Seq<u8>,
    s: Seq<char>,
    e: Endianness,
    suffix: Seq<u8>,
)
    requires
        encode_utf8(s).len() <= u32::MAX,
        encode_utf8(s).len() == 0 || encode_utf8(s).last() != 0,
    ensures
        decode_string(
            prefix + encode_string_bare(prefix.len() as int, s, e) + suffix,
            prefix.len() as int,
            e,
        ) == Ok::<(Seq<char>, int), CodecFault>(
            (s, (prefix.len() + encode_string_bare(prefix.len() as int, s, e).len()) as int),
        ),
{
    broadcast use vstd::utf8::encode_utf8_valid_utf8, vstd::utf8::encode_utf8_decode_utf8;

    let n = prefix.len() as int;
    let b = encode_utf8(s);
    let len = b.len() as u32;
    let hdr = encode_u32(n, len, e);
    let rest = b + suffix;
    let data = prefix + encode_string_bare(n, s, e) + suffix;
    assert(data =~= prefix + hdr + rest);
    lemma_u32_round_trip(prefix, len, e, rest);
    let q = n + hdr.len();
    if len == 0 {
        assert(decode_utf8(b) == s);
        assert(b =~= Seq::<u8>::empty());
        assert(s =~= Seq::<char>::empty());
    } else {
        assert(data[q + len - 1] == b.last());
        assert(string_body(data, q, len as int) =~= b);
    }
}

/// A byte sequence decodes to the bytes that were written.
pub proof fn lemma_bytes_round_trip(prefix: Seq<u8>, b: Seq<u8>, e: Endianness, suffix: Seq<u8>)
    requires
        b.len() <= u32::MAX,
    ensures
        decode_bytes(prefix + encode_bytes(prefix.len() as int, b, e) + suffix, prefix.len() as int, e)
            == Some((b, (prefix.len() + encode_bytes(prefix.len() as int, b, e).len()) as int)),
{
    let n = prefix.len() as int;
    let hdr = encode_u32(n, b.len() as u32, e);
    let data = prefix + encode_bytes(n, b, e) + suffix;
    assert(data =~= prefix + hdr + (b + suffix));
    lemma_u32_round_trip(prefix, b.len() as u32, e, b + suffix);
    let q = n + hdr.len();
    assert(data.subrange(q, q + b.len()) =~= b);
}

} // verus!
