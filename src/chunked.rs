//! The chunked-binary (MCAP) backend's read side: what a file holds, as the
//! reader takes it over. Parsing the container is left to the `mcap` crate;
//! the topic list with its measured counts is computed here.

use vstd::prelude::*;

use crate::error::BagError;
use crate::reader::{find_topic, StorageContents, StoredMessage};
use crate::types::{Connection, ConnectionView, MessageDefinition, MessageDefinitionFormat};

verus! {

/// One message of a chunked-binary file: its channel's topic and message
/// encoding, its log time and its payload.
pub type McapMessage = (String, String, u64, Vec<u8>);

pub open spec fn mcap_message_view(m: McapMessage) -> (Seq<char>, Seq<char>, u64, Seq<u8>) {
    (m.0@, m.1@, m.2, m.3@)
}

/// Name for what the `mcap` crate reads from the data section of a file:
/// its messages in file order, or `None` when it reports an error.
pub uninterp spec fn mcap_messages_of(bytes: Seq<u8>) -> Option<Seq<(Seq<char>, Seq<char>, u64, Seq<u8>)>>;

/// Opcode of a chunk record.
pub const OP_CHUNK: u8 = 6;

/// Opcode of an attachment record.
pub const OP_ATTACHMENT: u8 = 9;

/// Opcode of the footer record.
pub const OP_FOOTER: u8 = 2;

/// The little-endian 32-bit value at `p`.
pub open spec fn le32_at(b: Seq<u8>, p: int) -> int {
    b[p] + 256 * b[p + 1] + 65536 * b[p + 2] + 16777216 * b[p + 3]
}

/// The little-endian 64-bit value at `p`.
pub open spec fn le64_at(b: Seq<u8>, p: int) -> int {
    le32_at(b, p) + 4294967296 * le32_at(b, p + 4)
}

/// Whether an attachment record's body holds its whole header (two times,
/// a name, a media type, a data length) and a final 4-byte checksum.
pub open spec fn attachment_ok(c: Seq<u8>) -> bool {
    &&& c.len() >= 20
    &&& c.len() >= 24 + le32_at(c, 16)
    &&& c.len() >= 36 + le32_at(c, 16) + le32_at(c, 20 + le32_at(c, 16))
}

/// Name for what zstd decodes some bytes to, or `None` when they are no
/// valid sequence of zstd frames.
pub uninterp spec fn zstd_decoded(data: Seq<u8>) -> Option<Seq<u8>>;

/// Relies on `zstd::decode_all` on an in-memory slice: it decodes every
/// frame, and fails only on bytes that are no valid frames (creating the
/// context does not return an error), so both outcomes depend on the bytes
/// alone.
#[verifier::external_body]
fn zstd_decode(data: &[u8]) -> (r: Option<Vec<u8>>)
    ensures
        r is Some <==> zstd_decoded(data@) is Some,
        r matches Some(v) ==> zstd_decoded(data@) == Some(v@),
{
    zstd::decode_all(data).ok()
}

/// Whether the records of a chunk's content, from `pos` on, tile it
/// exactly, with no nested chunk and every attachment long enough.
pub open spec fn inner_records_ok(d: Seq<u8>, pos: int) -> bool
    decreases d.len() - pos,
{
    if pos < 0 || pos > d.len() {
        false
    } else if pos == d.len() {
        true
    } else if pos + 9 > d.len() {
        false
    } else {
        let op = d[pos];
        let len = le64_at(d, pos + 1);
        if pos + 9 + len > d.len() {
            false
        } else if op == OP_CHUNK {
            false
        } else if op == OP_ATTACHMENT && !attachment_ok(d.subrange(pos + 9, pos + 9 + len)) {
            false
        } else {
            inner_records_ok(d, pos + 9 + len)
        }
    }
}

/// The name of zstd compression in a chunk header.
pub open spec fn zstd_name() -> Seq<u8> {
    seq![122u8, 115u8, 116u8, 100u8]
}

/// Whether a chunk record's body holds together: its header (times,
/// uncompressed size and checksum, compression name, compressed size) fits,
/// the compressed data fits, the compression is none or zstd, and the
/// records inside (decoded, for zstd, to exactly the uncompressed size)
/// tile the content as `inner_records_ok` asks.
pub open spec fn chunk_ok(c: Seq<u8>) -> bool {
    if c.len() < 40 || c.len() < 40 + le32_at(c, 28) {
        false
    } else {
        let n = le32_at(c, 28);
        let size = le64_at(c, 32 + n);
        let name = c.subrange(32, 32 + n);
        if size > c.len() - 40 - n {
            false
        } else {
            let data = c.subrange(40 + n, 40 + n + size);
            if name.len() == 0 {
                inner_records_ok(data, 0)
            } else if name == zstd_name() {
                zstd_decoded(data) matches Some(d) && d.len() == le64_at(c, 16) && inner_records_ok(
                    d,
                    0,
                )
            } else {
                false
            }
        }
    }
}

/// Whether the top-level records from `pos` on are ones the `mcap` crate
/// reads without panicking or looping: each record lies inside the file,
/// every chunk holds together, and every attachment is long enough for its
/// header and checksum. The walk stops at the footer.
pub open spec fn records_safe(b: Seq<u8>, pos: int) -> bool
    decreases b.len() - pos,
{
    if pos < 0 || pos + 9 > b.len() {
        true
    } else {
        let op = b[pos];
        let len = le64_at(b, pos + 1);
        if pos + 9 + len > b.len() {
            false
        } else if op == OP_CHUNK && !chunk_ok(b.subrange(pos + 9, pos + 9 + len)) {
            false
        } else if op == OP_ATTACHMENT && !attachment_ok(b.subrange(pos + 9, pos + 9 + len)) {
            false
        } else if op == OP_FOOTER {
            true
        } else {
            records_safe(b, pos + 9 + len)
        }
    }
}

/// Whether a file is one the `mcap` crate can be handed: its records after
/// the 8-byte magic are safe to read.
pub open spec fn mcap_readable(b: Seq<u8>) -> bool {
    records_safe(b, 8)
}

fn le32(b: &[u8], p: usize) -> (r: u64)
    requires
        p + 4 <= b@.len(),
    ensures
        r == le32_at(b@, p as int),
        r < 4294967296,
{
    (b[p] as u64) + 256 * (b[p + 1] as u64) + 65536 * (b[p + 2] as u64) + 16777216 * (b[p + 3] as u64)
}

fn le64(b: &[u8], p: usize) -> (r: u64)
    requires
        p + 8 <= b@.len(),
    ensures
        r == le64_at(b@, p as int),
{
    let lo = le32(b, p);
    let n = b.len();
    assert(p + 4 <= n);
    let hi = le32(b, p + 4);
    assert(lo + 4294967296 * hi <= u64::MAX) by (nonlinear_arith)
        requires
            lo < 4294967296,
            hi < 4294967296,
    ;
    lo + 4294967296 * hi
}

/// Check an attachment record's body.
fn attachment_fits(c: &[u8]) -> (r: bool)
    ensures
        r == attachment_ok(c@),
{
    let n = c.len();
    if n < 20 {
        return false;
    }
    let name_len = le32(c, 16);
    if (n as u64) < 24 + name_len {
        return false;
    }
    let media_len = le32(c, 20 + name_len as usize);
    (n as u64) >= 36 + name_len + media_len
}

/// Check that the records inside a chunk's content tile it.
fn inner_fits(d: &[u8]) -> (r: bool)
    ensures
        r == inner_records_ok(d@, 0),
{
    let mut pos: usize = 0;
    while pos < d.len()
        invariant
            pos <= d@.len(),
            inner_records_ok(d@, 0) == inner_records_ok(d@, pos as int),
        decreases d@.len() - pos,
    {
        if d.len() - pos < 9 {
            return false;
        }
        let op = d[pos];
        let len = le64(d, pos + 1);
        if len > (d.len() - pos - 9) as u64 {
            return false;
        }
        let s = pos + 9;
        let e = s + len as usize;
        if op == OP_CHUNK {
            return false;
        }
        if op == OP_ATTACHMENT && !attachment_fits(vstd::slice::slice_subrange(d, s, e)) {
            return false;
        }
        pos = e;
    }
    true
}

/// Check a chunk record's body.
fn chunk_fits(c: &[u8]) -> (r: bool)
    ensures
        r == chunk_ok(c@),
{
    let total = c.len();
    if total < 40 {
        return false;
    }
    let n = le32(c, 28);
    if (total as u64) < 40 + n {
        return false;
    }
    let n = n as usize;
    let size = le64(c, 32 + n);
    if size > (total - 40 - n) as u64 {
        return false;
    }
    let name = vstd::slice::slice_subrange(c, 32, 32 + n);
    let data = vstd::slice::slice_subrange(c, 40 + n, 40 + n + size as usize);
    if n == 0 {
        inner_fits(data)
    } else if n == 4 && name[0] == 122 && name[1] == 115 && name[2] == 116 && name[3] == 100 {
        proof {
            assert(name@ =~= zstd_name());
        }
        match zstd_decode(data) {
            Some(d) => d.len() as u64 == le64(c, 16) && inner_fits(d.as_slice()),
            None => false,
        }
    } else {
        proof {
            if n == 4 {
                assert(name@ != zstd_name()) by {
                    if name@ == zstd_name() {
                        assert(name@[0] == 122u8 && name@[1] == 115u8 && name@[2] == 116u8
                            && name@[3] == 100u8);
                    }
                }
            }
        }
        false
    }
}

/// Walk the top-level records of a file and tell whether the `mcap` crate
/// can read it without panicking.
pub fn mcap_safe(b: &[u8]) -> (r: bool)
    ensures
        r == mcap_readable(b@),
{
    let mut pos: usize = 8;
    while pos <= b.len() && 9 <= b.len() - pos
        invariant
            pos >= 8,
            records_safe(b@, 8) == records_safe(b@, pos as int),
        decreases b@.len() - pos,
    {
        let op = b[pos];
        let len = le64(b, pos + 1);
        if len > (b.len() - pos - 9) as u64 {
            return false;
        }
        let s = pos + 9;
        let e = s + len as usize;
        let body = vstd::slice::slice_subrange(b, s, e);
        if op == OP_CHUNK && !chunk_fits(body) {
            return false;
        }
        if op == OP_ATTACHMENT && !attachment_fits(body) {
            return false;
        }
        if op == OP_FOOTER {
            return true;
        }
        pos = e;
    }
    true
}

/// Relies on `mcap::MessageStream`: it walks the data section of a file,
/// decompressing chunks, and yields each message with its channel, or an
/// error; what it yields depends on the bytes alone. Records that run past
/// their file or chunk, chunks whose header or content does not hold
/// together, and attachment records too short for their checksum can make
/// it panic or loop; `requires` leaves them out.
#[verifier::external_body]
fn stream_messages(bytes: &[u8]) -> (r: Option<Vec<McapMessage>>)
    requires
        mcap_readable(bytes@),
    ensures
        r is Some <==> mcap_messages_of(bytes@) is Some,
        r matches Some(v) ==> mcap_messages_of(bytes@) == Some(
            v@.map_values(|m: McapMessage| mcap_message_view(m)),
        ),
{
    let stream = mcap::MessageStream::new(bytes).ok()?;
    let mut out = Vec::new();
    for m in stream {
        let m = m.ok()?;
        out.push((m.channel.topic.clone(), m.channel.message_encoding.clone(), m.log_time, m.data.into_owned()));
    }
    Some(out)
}

/// The topics of a file's messages in order of first appearance, each with
/// the number of its messages; its message type is the message encoding of
/// its first message's channel.
pub open spec fn mcap_topics(msgs: Seq<(Seq<char>, Seq<char>, u64, Seq<u8>)>) -> Seq<ConnectionView>
    decreases msgs.len(),
{
    if msgs.len() == 0 {
        Seq::empty()
    } else {
        let a = mcap_topics(msgs.drop_last());
        let m = msgs.last();
        let k = find_topic(a, m.0, 0);
        if k >= 0 {
            a.update(k, ConnectionView { message_count: (a[k].message_count + 1) as u64, ..a[k] })
        } else {
            a.push(
                ConnectionView {
                    id: (a.len() + 1) as u32,
                    topic: m.0,
                    message_type: m.1,
                    definition_format: MessageDefinitionFormat::Absent,
                    definition: Seq::empty(),
                    type_description_hash: Seq::empty(),
                    message_count: 1,
                    serialization_format: "cdr"@,
                    offered_qos_profiles: Seq::empty(),
                },
            )
        }
    }
}

proof fn lemma_find_topic_range(conns: Seq<ConnectionView>, topic: Seq<char>, from: int)
    ensures
        find_topic(conns, topic, from) == -1 || (from <= find_topic(conns, topic, from) < conns.len()
            && conns[find_topic(conns, topic, from)].topic == topic),
    decreases conns.len() - from,
{
    if 0 <= from < conns.len() && conns[from].topic != topic {
        lemma_find_topic_range(conns, topic, from + 1);
    }
}

/// What the reader takes over from a chunked-binary file's messages: the
/// topics with their counts, the messages, and no definitions.
pub fn mcap_contents(messages: Vec<McapMessage>) -> (r: StorageContents)
    requires
        messages@.len() < u32::MAX,
    ensures
        r.connections@.map_values(|c: Connection| c@) == mcap_topics(
            messages@.map_values(|m: McapMessage| mcap_message_view(m)),
        ),
        r.messages@.map_values(|m: StoredMessage| crate::reader::stored_view(m)) == messages@.map_values(
            |m: McapMessage| (m.0@, m.2, m.3@),
        ),
        r.definitions@.len() == 0,
{
    let ghost mv = messages@.map_values(|m: McapMessage| mcap_message_view(m));
    let mut connections: Vec<Connection> = Vec::new();
    let mut stored: Vec<StoredMessage> = Vec::new();
    let mut i: usize = 0;
    while i < messages.len()
        invariant
            i <= messages@.len(),
            messages@.len() < u32::MAX,
            mv == messages@.map_values(|m: McapMessage| mcap_message_view(m)),
            connections@.map_values(|c: Connection| c@) == mcap_topics(mv.take(i as int)),
            connections@.len() <= i,
            stored@.len() == i,
            forall|k: int| 0 <= k < connections@.len() ==> #[trigger] connections@[k].message_count <= i,
            stored@.map_values(|m: StoredMessage| crate::reader::stored_view(m)) == messages@.map_values(
                |m: McapMessage| (m.0@, m.2, m.3@),
            ).take(i as int),
        decreases messages@.len() - i,
    {
        let m = &messages[i];
        let ghost cv = connections@.map_values(|c: Connection| c@);
        proof {
            assert(mv.take(i + 1).drop_last() =~= mv.take(i as int));
            assert(mv.take(i + 1).last() == mcap_message_view(*m));
            lemma_find_topic_range(cv, m.0@, 0);
        }
        let mut k: usize = 0;
        while k < connections.len() && !(connections[k].topic == m.0)
            invariant
                k <= connections@.len(),
                cv == connections@.map_values(|c: Connection| c@),
                find_topic(cv, m.0@, 0) == find_topic(cv, m.0@, k as int),
            decreases connections@.len() - k,
        {
            proof {
                assert(cv[k as int] == connections@[k as int]@);
            }
            k = k + 1;
        }
        if k < connections.len() {
            proof {
                assert(cv[k as int] == connections@[k as int]@);
            }
            let ghost before = connections@;
            let mut c = connections[k].duplicate();
            c.message_count = c.message_count + 1;
            connections.set(k, c);
            proof {
                assert(connections@.map_values(|c: Connection| c@) =~= cv.update(
                    k as int,
                    ConnectionView { message_count: (cv[k as int].message_count + 1) as u64, ..cv[k as int] },
                ));
                assert forall|x: int| 0 <= x < connections@.len() implies #[trigger] connections@[x].message_count
                    <= i + 1 by {
                    if x != k {
                        assert(connections@[x] == before[x]);
                    }
                }
            }
        } else {
            let c = Connection {
                id: (connections.len() + 1) as u32,
                topic: m.0.clone(),
                message_type: m.1.clone(),
                message_definition: MessageDefinition::default(),
                type_description_hash: String::new(),
                message_count: 1,
                serialization_format: String::from_str("cdr"),
                offered_qos_profiles: Vec::new(),
            };
            let ghost before = connections@;
            connections.push(c);
            proof {
                assert(connections@.map_values(|c: Connection| c@) =~= cv.push(c@));
                assert forall|x: int| 0 <= x < connections@.len() implies #[trigger] connections@[x].message_count
                    <= i + 1 by {
                    if x < before.len() {
                        assert(connections@[x] == before[x]);
                    }
                }
            }
        }
        let ghost sbefore = stored@;
        let sm = StoredMessage { topic: m.0.clone(), timestamp: m.2, data: crate::types::copy_bytes(&m.3) };
        stored.push(sm);
        proof {
            let f = |m: McapMessage| (m.0@, m.2, m.3@);
            let g = |m: StoredMessage| crate::reader::stored_view(m);
            assert(stored@ == sbefore.push(sm));
            assert(stored@.map_values(g) =~= sbefore.map_values(g).push(g(sm)));
            assert(g(sm) == f(messages@[i as int]));
            assert(messages@.map_values(f).take(i + 1) =~= messages@.map_values(f).take(i as int).push(
                f(messages@[i as int]),
            ));
            assert(stored@.map_values(|m: StoredMessage| crate::reader::stored_view(m)) =~= messages@.map_values(f).take(
                i + 1,
            ));
        }
        i = i + 1;
    }
    proof {
        assert(mv.take(i as int) =~= mv);
        assert(messages@.map_values(|m: McapMessage| (m.0@, m.2, m.3@)).take(i as int) =~= messages@.map_values(
            |m: McapMessage| (m.0@, m.2, m.3@),
        ));
    }
    StorageContents { connections, definitions: Vec::new(), messages: stored }
}

/// Read the messages of one chunked-binary file. Files whose records do
/// not hold together (see `mcap_readable`) are refused.
pub fn read_mcap_file(bytes: &[u8]) -> (r: Result<Vec<McapMessage>, BagError>)
    ensures
        r is Ok <==> mcap_readable(bytes@) && mcap_messages_of(bytes@) is Some,
        r matches Ok(v) ==> mcap_messages_of(bytes@) == Some(
            v@.map_values(|m: McapMessage| mcap_message_view(m)),
        ),
        r matches Err(e) ==> e matches BagError::InvalidMessageData { .. },
{
    if !mcap_safe(bytes) {
        return Err(
            BagError::InvalidMessageData {
                reason: String::from_str("the chunked-binary file holds records this reader refuses"),
            },
        );
    }
    match stream_messages(bytes) {
        Some(v) => Ok(v),
        None => Err(
            BagError::InvalidMessageData {
                reason: String::from_str("the chunked-binary file could not be read"),
            },
        ),
    }
}

} // verus!
