//! The writer: connection registry, buffered write pipeline with count- and
//! size-triggered flushes, and the manifest built at close.
//!
//! The writer makes no I/O of its own. What the storage backend must do
//! (type records, connection records, batches of messages) is queued as
//! [`StorageWork`] and taken by the caller that drives the backend.

use vstd::prelude::*;

use crate::error::BagError;
use crate::metadata::{
    BagFileInformation, BagMetadata, FileInformation, QosProfilesField, TopicMetadata,
    TopicWithMessageCount, VERSION_LATEST,
};
use crate::types::{
    copy_bytes, copy_profiles, CompressionFormat, CompressionMode, Connection, ConnectionView,
    Duration, MessageDefinition, QosProfile, StartingTime, StoragePlugin, format_name, mode_name,
    plugin_name,
};

verus! {

/// A message handed to storage: its connection, timestamp and payload.
pub type Record = (Connection, u64, Vec<u8>);

pub open spec fn record_view(r: Record) -> (ConnectionView, u64, Seq<u8>) {
    (r.0@, r.1, r.2@)
}

pub open spec fn records_view(s: Seq<Record>) -> Seq<(ConnectionView, u64, Seq<u8>)> {
    s.map_values(|r: Record| record_view(r))
}

/// Sum of a list of counts.
pub open spec fn sum(s: Seq<u64>) -> int
    decreases s.len(),
{
    if s.len() == 0 {
        0
    } else {
        sum(s.drop_last()) + s.last()
    }
}

proof fn lemma_sum_update(s: Seq<u64>, k: int, v: u64)
    requires
        0 <= k < s.len(),
    ensures
        sum(s.update(k, v)) == sum(s) - s[k] + v,
    decreases s.len(),
{
    if k == s.len() - 1 {
        assert(s.update(k, v).drop_last() =~= s.drop_last());
    } else {
        lemma_sum_update(s.drop_last(), k, v);
        assert(s.update(k, v).drop_last() =~= s.drop_last().update(k, v));
    }
}

proof fn lemma_sum_push(s: Seq<u64>, v: u64)
    ensures
        sum(s.push(v)) == sum(s) + v,
{
    assert(s.push(v).drop_last() =~= s);
}

/// Name that zstd gives the frame it makes of some bytes.
pub uninterp spec fn zstd_frame(data: Seq<u8>) -> Seq<u8>;

/// Relies on `zstd::encode_all` at level 0 (zstd's default level) on an
/// in-memory slice: the frame it returns depends on the input bytes alone,
/// and it succeeds (reading a slice and writing a `Vec` cannot fail, level
/// 0 is valid, and creating the context does not return an error).
#[verifier::external_body]
fn zstd_compress(data: &[u8]) -> (r: Option<Vec<u8>>)
    ensures
        r is Some,
        r matches Some(v) ==> v@ == zstd_frame(data@),
{
    zstd::encode_all(data, 0).ok()
}

/// What the storage backend has to do, in order: type records, then
/// connection records, then batches of messages (each one transaction).
pub struct StorageWork {
    /// Connections whose message type needs a type record.
    pub message_types: Vec<Connection>,
    /// Connections to record.
    pub connections: Vec<Connection>,
    /// Batches of messages.
    pub batches: Vec<Vec<Record>>,
}

/// Name of the storage file of a bag.
pub open spec fn storage_file_name(
    bag_name: Seq<char>,
    plugin: StoragePlugin,
    mode: CompressionMode,
    format: CompressionFormat,
) -> Seq<char> {
    let base = bag_name + if plugin == StoragePlugin::Sqlite3 {
        ".db3"@
    } else {
        ".mcap"@
    };
    if mode == CompressionMode::File {
        base + "."@ + format_name(format)
    } else {
        base
    }
}

/// Default buffer limit: 10 MiB.
pub const DEFAULT_BUFFER_BYTES: usize = 10485760;

/// Default flush threshold: 100 messages.
pub const DEFAULT_BATCH_THRESHOLD: usize = 100;

/// The writer of one bag.
pub struct Writer {
    bag_name: String,
    version: u32,
    storage_plugin: StoragePlugin,
    compression_mode: CompressionMode,
    compression_format: CompressionFormat,
    connections: Vec<Connection>,
    counts: Vec<u64>,
    stray_count: u64,
    total: u64,
    custom_data: Vec<(String, String)>,
    added_types: Vec<String>,
    min_timestamp: u64,
    max_timestamp: u64,
    is_open: bool,
    message_buffer: Vec<Record>,
    buffer_size_limit: usize,
    current_buffer_size: usize,
    batch_threshold: usize,
    pending_types: Vec<Connection>,
    pending_connections: Vec<Connection>,
    pending_batches: Vec<Vec<Record>>,
}

/// `a + b`, held at `usize::MAX`.
pub open spec fn sat_add(a: int, b: int) -> int {
    if a + b > usize::MAX {
        usize::MAX as int
    } else {
        a + b
    }
}


/// The parts of a writer that configuration sets.
pub open spec fn same_config(a: Writer, b: Writer) -> bool {
    &&& a.bag_name_spec() == b.bag_name_spec()
    &&& a.version_spec() == b.version_spec()
    &&& a.plugin() == b.plugin()
    &&& a.mode() == b.mode()
    &&& a.format() == b.format()
    &&& a.open_spec() == b.open_spec()
    &&& a.limit() == b.limit()
    &&& a.threshold() == b.threshold()
}

/// The registry: connections, type records, custom data and the
/// registrations still to be handed to storage.
pub open spec fn same_registry(a: Writer, b: Writer) -> bool {
    &&& a.conns() == b.conns()
    &&& a.types() == b.types()
    &&& a.custom() == b.custom()
    &&& a.pending_types_spec() == b.pending_types_spec()
    &&& a.pending_connections_spec() == b.pending_connections_spec()
}

/// The statistics: counts and timestamp bounds.
pub open spec fn same_stats(a: Writer, b: Writer) -> bool {
    &&& a.counts_spec() == b.counts_spec()
    &&& a.stray() == b.stray()
    &&& a.total_spec() == b.total_spec()
    &&& a.min_ts() == b.min_ts()
    &&& a.max_ts() == b.max_ts()
}

/// The buffer and the flushed batches.
pub open spec fn same_buffers(a: Writer, b: Writer) -> bool {
    &&& a.buffer() == b.buffer()
    &&& a.buffered_bytes() == b.buffered_bytes()
    &&& a.batches() == b.batches()
}

/// Whether connection id `id` is registered (ids run from 1).
pub open spec fn registered(w: Writer, id: u32) -> bool {
    1 <= id <= w.conns().len()
}

pub open spec fn min_u64(a: u64, b: u64) -> u64 {
    if a <= b {
        a
    } else {
        b
    }
}

pub open spec fn max_u64(a: u64, b: u64) -> u64 {
    if a >= b {
        a
    } else {
        b
    }
}

/// `new` is `old` after one message `rec` went into the buffer: the counts
/// and timestamp bounds take it in, and the buffer is flushed as one batch
/// once it holds `threshold` messages or `limit` bytes.
pub open spec fn enqueued(old: Writer, new: Writer, rec: (ConnectionView, u64, Seq<u8>)) -> bool {
    let buf = old.buffer().push(rec);
    let bytes = sat_add(old.buffered_bytes(), rec.2.len() as int);
    &&& same_config(old, new)
    &&& same_registry(old, new)
    &&& new.min_ts() == min_u64(old.min_ts(), rec.1)
    &&& new.max_ts() == max_u64(old.max_ts(), rec.1)
    &&& new.total_spec() == old.total_spec() + 1
    &&& if registered(old, rec.0.id) {
        &&& new.counts_spec() == old.counts_spec().update(
            rec.0.id - 1,
            (old.counts_spec()[rec.0.id - 1] + 1) as u64,
        )
        &&& new.stray() == old.stray()
    } else {
        &&& new.counts_spec() == old.counts_spec()
        &&& new.stray() == old.stray() + 1
    }
    &&& if buf.len() >= old.threshold() || bytes >= old.limit() {
        &&& new.buffer().len() == 0
        &&& new.buffered_bytes() == 0
        &&& new.batches() == old.batches().push(buf)
    } else {
        &&& new.buffer() == buf
        &&& new.buffered_bytes() == bytes
        &&& new.batches() == old.batches()
    }
}

/// The connection that `add_connection` registers.
pub open spec fn new_connection(
    id: u32,
    topic: Seq<char>,
    message_type: Seq<char>,
    message_definition: Option<MessageDefinition>,
    type_description_hash: Option<String>,
    serialization_format: Option<String>,
    offered_qos_profiles: Option<Vec<QosProfile>>,
) -> ConnectionView {
    ConnectionView {
        id,
        topic,
        message_type,
        definition_format: match message_definition {
            Some(d) => d.format,
            None => crate::types::MessageDefinitionFormat::Absent,
        },
        definition: match message_definition {
            Some(d) => d.data@,
            None => Seq::empty(),
        },
        type_description_hash: match type_description_hash {
            Some(h) => h@,
            None => Seq::empty(),
        },
        message_count: 0,
        serialization_format: match serialization_format {
            Some(f) => f@,
            None => "cdr"@,
        },
        offered_qos_profiles: match offered_qos_profiles {
            Some(q) => q@,
            None => Seq::empty(),
        },
    }
}

/// The manifest that a writer's state describes.
pub open spec fn manifest_of(w: Writer, info: BagFileInformation) -> bool {
    let name = storage_file_name(w.bag_name_spec(), w.plugin(), w.mode(), w.format());
    let start: u64 = if w.total_spec() == 0 {
        0
    } else {
        w.min_ts()
    };
    let duration: u64 = if w.total_spec() == 0 || w.max_ts() < w.min_ts() {
        0
    } else {
        (w.max_ts() - w.min_ts()) as u64
    };
    &&& info.version == w.version_spec()
    &&& info.storage_identifier@ == plugin_name(w.plugin())
    &&& info.relative_file_paths@.len() == 1
    &&& info.relative_file_paths@[0]@ == name
    &&& info.duration.nanoseconds == duration
    &&& info.starting_time.nanoseconds_since_epoch == start
    &&& info.message_count == w.total_spec()
    &&& info.compression_format@ == (if w.mode() == CompressionMode::Off {
        ""@
    } else {
        format_name(w.format())
    })
    &&& info.compression_mode@ == (if w.mode() == CompressionMode::Off {
        ""@
    } else {
        mode_name(w.mode())
    })
    &&& info.topics_with_message_count@.len() == w.conns().len()
    &&& forall|i: int|
        0 <= i < w.conns().len() ==> topic_entry(
            #[trigger] info.topics_with_message_count@[i],
            w.conns()[i],
            w.counts_spec()[i],
        )
    &&& info.files@.len() == 1
    &&& info.files@[0].path@ == name
    &&& info.files@[0].starting_time.nanoseconds_since_epoch == start
    &&& info.files@[0].duration.nanoseconds == duration
    &&& info.files@[0].message_count == w.total_spec()
    &&& (if w.custom().len() == 0 {
        info.custom_data is None
    } else {
        info.custom_data matches Some(v) && v@.map_values(|p: (String, String)| (p.0@, p.1@))
            == w.custom()
    })
    &&& info.ros_distro matches Some(d) && d@ == "rosbags"@
}

/// A manifest topic entry that records connection `c` with `count` messages.
pub open spec fn topic_entry(t: TopicWithMessageCount, c: ConnectionView, count: u64) -> bool {
    &&& t.message_count == count
    &&& t.topic_metadata.name@ == c.topic
    &&& t.topic_metadata.message_type@ == c.message_type
    &&& t.topic_metadata.serialization_format@ == c.serialization_format
    &&& t.topic_metadata.type_description_hash@ == c.type_description_hash
    &&& t.topic_metadata.offered_qos_profiles matches QosProfilesField::List(l) && l@
        == c.offered_qos_profiles
}


/// Position of the pair with key `key`, if any.
pub open spec fn custom_index(c: Seq<(Seq<char>, Seq<char>)>, key: Seq<char>) -> int {
    choose|i: int| 0 <= i < c.len() && c[i].0 == key
}

/// Custom data after setting `key` to `value`: the pair with that key gets
/// the new value, else the pair is appended.
pub open spec fn custom_set(c: Seq<(Seq<char>, Seq<char>)>, key: Seq<char>, value: Seq<char>) -> Seq<
    (Seq<char>, Seq<char>),
> {
    if exists|i: int| 0 <= i < c.len() && #[trigger] c[i].0 == key {
        c.update(custom_index(c, key), (key, value))
    } else {
        c.push((key, value))
    }
}

proof fn lemma_custom_index(c: Seq<(Seq<char>, Seq<char>)>, key: Seq<char>, i: int)
    requires
        0 <= i < c.len(),
        c[i].0 == key,
        forall|k: int| 0 <= k < i ==> #[trigger] c[k].0 != key,
        forall|a: int, b: int| 0 <= a < b < c.len() ==> #[trigger] c[a].0 != #[trigger] c[b].0,
    ensures
        custom_index(c, key) == i,
{
}


proof fn lemma_sum_nonneg(s: Seq<u64>)
    ensures
        sum(s) >= 0,
    decreases s.len(),
{
    if s.len() > 0 {
        lemma_sum_nonneg(s.drop_last());
    }
}

proof fn lemma_sum_bounds(s: Seq<u64>, k: int)
    requires
        0 <= k < s.len(),
    ensures
        sum(s) >= s[k],
    decreases s.len(),
{
    lemma_sum_nonneg(s.drop_last());
    if k < s.len() - 1 {
        lemma_sum_bounds(s.drop_last(), k);
        assert(s.drop_last()[k] == s[k]);
    }
}

/// Whether a connection (topic, type) pair is taken.
pub open spec fn pair_taken(conns: Seq<ConnectionView>, topic: Seq<char>, message_type: Seq<char>) -> bool {
    exists|i: int|
        0 <= i < conns.len() && #[trigger] conns[i].topic == topic && conns[i].message_type
            == message_type
}

/// Whether `write` compresses each payload.
pub open spec fn compresses(w: Writer) -> bool {
    w.mode() == CompressionMode::Message && w.format() == CompressionFormat::Zstd
}

/// Counts after tallying `msgs` by connection id; ids that are not
/// registered are left out.
pub open spec fn tally(counts: Seq<u64>, msgs: Seq<(ConnectionView, u64, Seq<u8>)>) -> Seq<u64>
    decreases msgs.len(),
{
    if msgs.len() == 0 {
        counts
    } else {
        let c = tally(counts, msgs.drop_last());
        let id = msgs.last().0.id;
        if 1 <= id <= c.len() {
            c.update(id - 1, (c[id - 1] + 1) as u64)
        } else {
            c
        }
    }
}

/// How many of `msgs` carry an id outside `1..=n`.
pub open spec fn strays(n: int, msgs: Seq<(ConnectionView, u64, Seq<u8>)>) -> int
    decreases msgs.len(),
{
    if msgs.len() == 0 {
        0
    } else {
        strays(n, msgs.drop_last()) + if 1 <= msgs.last().0.id <= n {
            0int
        } else {
            1int
        }
    }
}

/// The smallest of `m` and the timestamps of `msgs`.
pub open spec fn low(m: u64, msgs: Seq<(ConnectionView, u64, Seq<u8>)>) -> u64
    decreases msgs.len(),
{
    if msgs.len() == 0 {
        m
    } else {
        min_u64(low(m, msgs.drop_last()), msgs.last().1)
    }
}

/// The largest of `m` and the timestamps of `msgs`.
pub open spec fn high(m: u64, msgs: Seq<(ConnectionView, u64, Seq<u8>)>) -> u64
    decreases msgs.len(),
{
    if msgs.len() == 0 {
        m
    } else {
        max_u64(high(m, msgs.drop_last()), msgs.last().1)
    }
}

impl Writer {
    /// The writer's invariant: ids run from 1 in order, (topic, type) pairs
    /// are unique, custom keys are unique, the total is the sum of the
    /// counts, and the timestamp bounds are those of the messages written.
    pub closed spec fn wf(&self) -> bool {
        &&& self.connections@.len() == self.counts@.len()
        &&& self.connections@.len() <= u32::MAX
        &&& forall|i: int|
            0 <= i < self.connections@.len() ==> #[trigger] self.connections@[i].id == i + 1
        &&& forall|i: int, j: int|
            0 <= i < j < self.connections@.len() ==> !(#[trigger] self.connections@[i].topic@
                == #[trigger] self.connections@[j].topic@ && self.connections@[i].message_type@
                == self.connections@[j].message_type@)
        &&& self.total == sum(self.counts@) + self.stray_count
        &&& self.total == 0 ==> self.min_timestamp == u64::MAX && self.max_timestamp == 0
        &&& self.total > 0 ==> self.min_timestamp <= self.max_timestamp
        &&& self.total == 1 ==> self.min_timestamp == self.max_timestamp
        &&& forall|a: int, b: int|
            0 <= a < b < self.custom_data@.len() ==> #[trigger] self.custom_data@[a].0@
                != #[trigger] self.custom_data@[b].0@
    }

    pub closed spec fn bag_name_spec(&self) -> Seq<char> {
        self.bag_name@
    }

    pub closed spec fn version_spec(&self) -> u32 {
        self.version
    }

    pub closed spec fn plugin(&self) -> StoragePlugin {
        self.storage_plugin
    }

    pub closed spec fn mode(&self) -> CompressionMode {
        self.compression_mode
    }

    pub closed spec fn format(&self) -> CompressionFormat {
        self.compression_format
    }

    pub closed spec fn open_spec(&self) -> bool {
        self.is_open
    }

    /// The registered connections.
    pub closed spec fn conns(&self) -> Seq<ConnectionView> {
        self.connections@.map_values(|c: Connection| c@)
    }

    /// Messages written per registered connection, by position.
    pub closed spec fn counts_spec(&self) -> Seq<u64> {
        self.counts@
    }

    /// Messages written through the raw path on ids that were never
    /// registered.
    pub closed spec fn stray(&self) -> u64 {
        self.stray_count
    }

    /// All messages written.
    pub closed spec fn total_spec(&self) -> u64 {
        self.total
    }

    pub closed spec fn min_ts(&self) -> u64 {
        self.min_timestamp
    }

    pub closed spec fn max_ts(&self) -> u64 {
        self.max_timestamp
    }

    /// Message types that already have a type record.
    pub closed spec fn types(&self) -> Seq<Seq<char>> {
        self.added_types@.map_values(|s: String| s@)
    }

    pub closed spec fn custom(&self) -> Seq<(Seq<char>, Seq<char>)> {
        self.custom_data@.map_values(|p: (String, String)| (p.0@, p.1@))
    }

    /// The messages buffered and not yet flushed.
    pub closed spec fn buffer(&self) -> Seq<(ConnectionView, u64, Seq<u8>)> {
        records_view(self.message_buffer@)
    }

    pub closed spec fn buffered_bytes(&self) -> int {
        self.current_buffer_size as int
    }

    pub closed spec fn limit(&self) -> int {
        self.buffer_size_limit as int
    }

    pub closed spec fn threshold(&self) -> int {
        self.batch_threshold as int
    }

    /// Flushed batches not yet taken by the storage driver.
    pub closed spec fn batches(&self) -> Seq<Seq<(ConnectionView, u64, Seq<u8>)>> {
        self.pending_batches@.map_values(|b: Vec<Record>| records_view(b@))
    }

    pub closed spec fn pending_types_spec(&self) -> Seq<ConnectionView> {
        self.pending_types@.map_values(|c: Connection| c@)
    }

    pub closed spec fn pending_connections_spec(&self) -> Seq<ConnectionView> {
        self.pending_connections@.map_values(|c: Connection| c@)
    }

    /// A writer for the bag whose directory is named `bag_name`; version 9
    /// and the relational backend unless given.
    pub fn new(bag_name: String, version: Option<u32>, storage_plugin: Option<StoragePlugin>) -> (r:
        Writer)
        ensures
            r.bag_name_spec() == bag_name@,
            r.version_spec() == (match version {
                Some(v) => v,
                None => VERSION_LATEST,
            }),
            r.plugin() == (match storage_plugin {
                Some(p) => p,
                None => StoragePlugin::Sqlite3,
            }),
            !r.open_spec(),
            r.mode() == CompressionMode::Off,
            r.format() == CompressionFormat::Absent,
            r.conns().len() == 0,
            r.counts_spec() == Seq::<u64>::empty(),
            r.total_spec() == 0,
            r.stray() == 0,
            r.custom().len() == 0,
            r.types().len() == 0,
            r.buffer().len() == 0,
            r.batches().len() == 0,
            r.buffered_bytes() == 0,
            r.limit() == DEFAULT_BUFFER_BYTES,
            r.threshold() == DEFAULT_BATCH_THRESHOLD,
            r.min_ts() == u64::MAX,
            r.max_ts() == 0,
            r.pending_types_spec().len() == 0,
            r.pending_connections_spec().len() == 0,
            r.wf(),
    {
        let version = match version {
            Some(v) => v,
            None => VERSION_LATEST,
        };
        let storage_plugin = match storage_plugin {
            Some(p) => p,
            None => StoragePlugin::Sqlite3,
        };
        let w = Writer {
            bag_name,
            version,
            storage_plugin,
            compression_mode: CompressionMode::Off,
            compression_format: CompressionFormat::Absent,
            connections: Vec::new(),
            counts: Vec::new(),
            stray_count: 0,
            total: 0,
            custom_data: Vec::new(),
            added_types: Vec::new(),
            min_timestamp: u64::MAX,
            max_timestamp: 0,
            is_open: false,
            message_buffer: Vec::new(),
            buffer_size_limit: DEFAULT_BUFFER_BYTES,
            current_buffer_size: 0,
            batch_threshold: DEFAULT_BATCH_THRESHOLD,
            pending_types: Vec::new(),
            pending_connections: Vec::new(),
            pending_batches: Vec::new(),
        };
        proof {
            assert(w.connections@.map_values(|c: Connection| c@) =~= Seq::<ConnectionView>::empty());
            assert(w.custom_data@.map_values(|p: (String, String)| (p.0@, p.1@)).len() == 0);
        }
        w
    }

    /// Choose the compression; only before the bag is opened.
    pub fn set_compression(&mut self, mode: CompressionMode, format: CompressionFormat) -> (r:
        Result<(), BagError>)
        requires
            old(self).wf(),
        ensures
            final(self).wf(),
            old(self).open_spec() ==> r == Err::<(), BagError>(BagError::BagAlreadyOpen) && *final(self) == *old(self),
            !old(self).open_spec() ==> r is Ok && final(self).mode() == mode && final(self).format()
                == format && final(self).bag_name_spec() == old(self).bag_name_spec()
                && final(self).version_spec() == old(self).version_spec() && final(self).plugin()
                == old(self).plugin() && !final(self).open_spec() && final(self).limit() == old(self).limit() && final(self).threshold() == old(self).threshold() && same_registry(
                *old(self),
                *final(self),
            ) && same_stats(*old(self), *final(self)) && same_buffers(*old(self), *final(self)),
    {
        if self.is_open {
            return Err(BagError::BagAlreadyOpen);
        }
        self.compression_mode = mode;
        self.compression_format = format;
        Ok(())
    }

    /// Set a custom key/value pair of the manifest, replacing the value of
    /// an existing key.
    pub fn set_custom_data(&mut self, key: String, value: String) -> (r: Result<(), BagError>)
        requires
            old(self).wf(),
        ensures
            final(self).wf(),
            r is Ok,
            same_config(*old(self), *final(self)),
            same_stats(*old(self), *final(self)),
            same_buffers(*old(self), *final(self)),
            final(self).conns() == old(self).conns(),
            final(self).types() == old(self).types(),
            final(self).pending_types_spec() == old(self).pending_types_spec(),
            final(self).pending_connections_spec() == old(self).pending_connections_spec(),
            final(self).custom() == custom_set(old(self).custom(), key@, value@),
    {
        let ghost old_custom = self.custom();
        let mut i: usize = 0;
        while i < self.custom_data.len()
            invariant
                *self == *old(self),
                self.wf(),
                i <= self.custom_data@.len(),
                self.custom() == old_custom,
                forall|k: int| 0 <= k < i ==> #[trigger] self.custom_data@[k].0@ != key@,
            decreases self.custom_data@.len() - i,
        {
            if self.custom_data[i].0 == key {
                let ghost before = self.custom_data@;
                self.custom_data.set(i, (key, value));
                proof {
                    assert(self.custom() =~= old_custom.update(i as int, (key@, value@)));
                    assert forall|a: int, b: int|
                        0 <= a < b < old_custom.len() implies #[trigger] old_custom[a].0
                        != #[trigger] old_custom[b].0 by {
                        assert(old_custom[a].0 == before[a].0@);
                        assert(old_custom[b].0 == before[b].0@);
                    }
                    assert forall|k: int| 0 <= k < i implies #[trigger] old_custom[k].0 != key@ by {
                        assert(old_custom[k].0 == before[k].0@);
                    }
                    assert(old_custom[i as int].0 == key@);
                    lemma_custom_index(old_custom, key@, i as int);
                    assert forall|a: int, b: int|
                        0 <= a < b < self.custom_data@.len() implies #[trigger] self.custom_data@[a].0@
                        != #[trigger] self.custom_data@[b].0@ by {
                        assert(self.custom_data@[a].0@ == before[a].0@);
                        assert(self.custom_data@[b].0@ == before[b].0@);
                    }
                }
                return Ok(());
            }
            i = i + 1;
        }
        let ghost before = self.custom_data@;
        self.custom_data.push((key, value));
        proof {
            assert(self.custom() =~= old_custom.push((key@, value@)));
            assert forall|k: int| 0 <= k < old_custom.len() implies #[trigger] old_custom[k].0
                != key@ by {
                assert(old_custom[k].0 == before[k].0@);
            }
            assert forall|a: int, b: int|
                0 <= a < b < self.custom_data@.len() implies #[trigger] self.custom_data@[a].0@
                != #[trigger] self.custom_data@[b].0@ by {
                if b == before.len() {
                    assert(self.custom_data@[a].0@ == before[a].0@);
                } else {
                    assert(self.custom_data@[a].0@ == before[a].0@);
                    assert(self.custom_data@[b].0@ == before[b].0@);
                }
            }
        }
        Ok(())
    }

    /// Set the buffer limit (in MiB) and the flush threshold (in messages);
    /// only before the bag is opened.
    pub fn configure_buffer(&mut self, buffer_size_mb: usize, batch_threshold: usize) -> (r: Result<
        (),
        BagError,
    >)
        requires
            old(self).wf(),
            buffer_size_mb * 1048576 <= usize::MAX,
        ensures
            final(self).wf(),
            old(self).open_spec() ==> r == Err::<(), BagError>(BagError::BagAlreadyOpen) && *final(self) == *old(self),
            !old(self).open_spec() ==> r is Ok && final(self).limit() == buffer_size_mb * 1048576
                && final(self).threshold() == batch_threshold && final(self).bag_name_spec()
                == old(self).bag_name_spec() && final(self).version_spec() == old(self).version_spec() && final(self).plugin() == old(self).plugin() && final(self).mode()
                == old(self).mode() && final(self).format() == old(self).format() && !final(self).open_spec() && same_registry(*old(self), *final(self)) && same_stats(
                *old(self),
                *final(self),
            ) && same_buffers(*old(self), *final(self)),
    {
        if self.is_open {
            return Err(BagError::BagAlreadyOpen);
        }
        self.buffer_size_limit = buffer_size_mb * 1048576;
        self.batch_threshold = batch_threshold;
        Ok(())
    }

    /// Hand the buffered messages to storage as one batch.
    pub fn flush_buffer(&mut self) -> (r: Result<(), BagError>)
        requires
            old(self).wf(),
        ensures
            final(self).wf(),
            r is Ok,
            same_config(*old(self), *final(self)),
            same_registry(*old(self), *final(self)),
            same_stats(*old(self), *final(self)),
            final(self).buffer().len() == 0,
            final(self).buffered_bytes() == 0,
            old(self).buffer().len() == 0 ==> final(self).batches() == old(self).batches(),
            old(self).buffer().len() > 0 ==> final(self).batches() == old(self).batches().push(
                old(self).buffer(),
            ),
    {
        if self.message_buffer.len() == 0 {
            self.current_buffer_size = 0;
            proof {
                assert(self.buffer() =~= Seq::<(ConnectionView, u64, Seq<u8>)>::empty());
            }
            return Ok(());
        }
        let ghost old_batches = self.batches();
        let ghost old_buffer = self.buffer();
        let mut batch: Vec<Record> = Vec::new();
        core::mem::swap(&mut batch, &mut self.message_buffer);
        self.pending_batches.push(batch);
        self.current_buffer_size = 0;
        proof {
            assert(self.batches() =~= old_batches.push(old_buffer));
            assert(self.buffer() =~= Seq::<(ConnectionView, u64, Seq<u8>)>::empty());
        }
        Ok(())
    }

    /// Open the bag for writing (the storage driver opens the backend).
    /// Opening an open bag does nothing; the relational backend refuses
    /// storage-side compression.
    pub fn open(&mut self) -> (r: Result<(), BagError>)
        requires
            old(self).wf(),
        ensures
            final(self).wf(),
            old(self).open_spec() ==> r is Ok && *final(self) == *old(self),
            !old(self).open_spec() && old(self).plugin() == StoragePlugin::Sqlite3 && old(self).mode()
                == CompressionMode::Storage ==> (r matches Err(BagError::Writer { .. })) && *final(self)
                == *old(self),
            !old(self).open_spec() && !(old(self).plugin() == StoragePlugin::Sqlite3 && old(self).mode()
                == CompressionMode::Storage) ==> r is Ok && final(self).open_spec()
                && final(self).bag_name_spec() == old(self).bag_name_spec()
                && final(self).version_spec() == old(self).version_spec() && final(self).plugin()
                == old(self).plugin() && final(self).mode() == old(self).mode() && final(self).format()
                == old(self).format() && final(self).limit() == old(self).limit()
                && final(self).threshold() == old(self).threshold() && same_registry(
                *old(self),
                *final(self),
            ) && same_stats(*old(self), *final(self)) && same_buffers(*old(self), *final(self)),
    {
        if self.is_open {
            return Ok(());
        }
        if self.storage_plugin == StoragePlugin::Sqlite3 && self.compression_mode
            == CompressionMode::Storage {
            return Err(
                BagError::Writer {
                    message: String::from_str(
                        "the relational backend does not support storage-side compression",
                    ),
                },
            );
        }
        self.is_open = true;
        Ok(())
    }

    /// The registered connections.
    pub fn connections(&self) -> (r: &[Connection])
        ensures
            r@.map_values(|c: Connection| c@) == self.conns(),
    {
        self.connections.as_slice()
    }

    /// Whether the bag is open.
    pub fn is_open(&self) -> (r: bool)
        ensures
            r == self.open_spec(),
    {
        self.is_open
    }

    /// Take what the storage backend has still to do.
    pub fn take_storage_work(&mut self) -> (r: StorageWork)
        requires
            old(self).wf(),
        ensures
            final(self).wf(),
            r.message_types@.map_values(|c: Connection| c@) == old(self).pending_types_spec(),
            r.connections@.map_values(|c: Connection| c@) == old(self).pending_connections_spec(),
            r.batches@.map_values(|b: Vec<Record>| records_view(b@)) == old(self).batches(),
            final(self).pending_types_spec().len() == 0,
            final(self).pending_connections_spec().len() == 0,
            final(self).batches().len() == 0,
            same_config(*old(self), *final(self)),
            same_stats(*old(self), *final(self)),
            final(self).conns() == old(self).conns(),
            final(self).types() == old(self).types(),
            final(self).custom() == old(self).custom(),
            final(self).buffer() == old(self).buffer(),
            final(self).buffered_bytes() == old(self).buffered_bytes(),
    {
        let mut message_types: Vec<Connection> = Vec::new();
        let mut connections: Vec<Connection> = Vec::new();
        let mut batches: Vec<Vec<Record>> = Vec::new();
        core::mem::swap(&mut message_types, &mut self.pending_types);
        core::mem::swap(&mut connections, &mut self.pending_connections);
        core::mem::swap(&mut batches, &mut self.pending_batches);
        proof {
            assert(self.pending_types_spec() =~= Seq::<ConnectionView>::empty());
            assert(self.pending_connections_spec() =~= Seq::<ConnectionView>::empty());
        }
        StorageWork { message_types, connections, batches }
    }

    /// The manifest version the bag is written in.
    pub fn version(&self) -> (r: u32)
        ensures
            r == self.version_spec(),
    {
        self.version
    }

    /// The storage backend the bag is written with.
    pub fn storage_plugin(&self) -> (r: StoragePlugin)
        ensures
            r == self.plugin(),
    {
        self.storage_plugin
    }

    /// Messages written so far on the connection with id `connection_id`
    /// (0 for an id that is not registered).
    pub fn message_count(&self, connection_id: u32) -> (r: u64)
        requires
            self.wf(),
        ensures
            registered(*self, connection_id) ==> r == self.counts_spec()[connection_id - 1],
            !registered(*self, connection_id) ==> r == 0,
    {
        if 1 <= connection_id && (connection_id as usize) <= self.counts.len() {
            self.counts[(connection_id - 1) as usize]
        } else {
            0
        }
    }

    /// All messages written so far.
    pub fn total_message_count(&self) -> (r: u64)
        ensures
            r == self.total_spec(),
    {
        self.total
    }

    /// Register a connection: the next id, the given attributes (an empty
    /// definition and hash, "cdr" and no QoS profiles by default), a type
    /// record the first time its message type is seen, and a connection
    /// record.
    pub fn add_connection(
        &mut self,
        topic: String,
        message_type: String,
        message_definition: Option<MessageDefinition>,
        type_description_hash: Option<String>,
        serialization_format: Option<String>,
        offered_qos_profiles: Option<Vec<QosProfile>>,
    ) -> (r: Result<Connection, BagError>)
        requires
            old(self).wf(),
            old(self).conns().len() < u32::MAX,
        ensures
            final(self).wf(),
            !old(self).open_spec() ==> r == Err::<Connection, BagError>(BagError::BagNotOpen)
                && *final(self) == *old(self),
            old(self).open_spec() && pair_taken(old(self).conns(), topic@, message_type@) ==> (r matches Err(
                BagError::ConnectionAlreadyExists { topic: t },
            ) && t@ == topic@) && *final(self) == *old(self),
            old(self).open_spec() && !pair_taken(old(self).conns(), topic@, message_type@) ==> (r matches Ok(c) && c@
                == new_connection(
                (old(self).conns().len() + 1) as u32,
                topic@,
                message_type@,
                message_definition,
                type_description_hash,
                serialization_format,
                offered_qos_profiles,
            ) && final(self).conns() == old(self).conns().push(c@) && final(self).pending_connections_spec()
                == old(self).pending_connections_spec().push(c@) && (if old(self).types().contains(
                message_type@,
            ) {
                final(self).types() == old(self).types() && final(self).pending_types_spec() == old(self).pending_types_spec()
            } else {
                final(self).types() == old(self).types().push(message_type@)
                    && final(self).pending_types_spec() == old(self).pending_types_spec().push(c@)
            })) && final(self).counts_spec() == old(self).counts_spec().push(0) && final(self).stray()
                == old(self).stray() && final(self).total_spec() == old(self).total_spec() && final(self).min_ts() == old(self).min_ts() && final(self).max_ts() == old(self).max_ts()
                && final(self).custom() == old(self).custom() && same_config(*old(self), *final(self))
                && same_buffers(*old(self), *final(self)),
    {
        if !self.is_open {
            return Err(BagError::BagNotOpen);
        }
        let mut i: usize = 0;
        while i < self.connections.len()
            invariant
                *self == *old(self),
                self.wf(),
                self.is_open,
                i <= self.connections@.len(),
                forall|k: int|
                    0 <= k < i ==> !(#[trigger] self.connections@[k].topic@ == topic@
                        && self.connections@[k].message_type@ == message_type@),
            decreases self.connections@.len() - i,
        {
            if self.connections[i].topic == topic && self.connections[i].message_type
                == message_type {
                proof {
                    assert(self.conns()[i as int].topic == topic@);
                }
                return Err(BagError::ConnectionAlreadyExists { topic });
            }
            i = i + 1;
        }
        proof {
            assert(!pair_taken(self.conns(), topic@, message_type@)) by {
                assert forall|k: int| 0 <= k < self.conns().len() implies !(#[trigger] self.conns()[k].topic
                    == topic@ && self.conns()[k].message_type == message_type@) by {
                    assert(self.conns()[k] == self.connections@[k]@);
                }
            }
        }
        let id = (self.connections.len() + 1) as u32;
        let definition = match message_definition {
            Some(d) => d,
            None => MessageDefinition::default(),
        };
        let hash = match type_description_hash {
            Some(h) => h,
            None => String::new(),
        };
        let format = match serialization_format {
            Some(f) => f,
            None => String::from_str("cdr"),
        };
        let profiles = match offered_qos_profiles {
            Some(q) => q,
            None => Vec::new(),
        };
        let connection = Connection {
            id,
            topic,
            message_type,
            message_definition: definition,
            type_description_hash: hash,
            message_count: 0,
            serialization_format: format,
            offered_qos_profiles: profiles,
        };
        proof {
            assert(connection@ =~= new_connection(
                id,
                topic@,
                message_type@,
                message_definition,
                type_description_hash,
                serialization_format,
                offered_qos_profiles,
            ));
        }
        let ghost old_types = self.types();
        let mut known = false;
        let mut j: usize = 0;
        while j < self.added_types.len()
            invariant
                j <= self.added_types@.len(),
                self.types() == old_types,
                known ==> old_types.contains(connection.message_type@),
                !known ==> forall|k: int| 0 <= k < j ==> #[trigger] old_types[k] != connection.message_type@,
            decreases self.added_types@.len() - j,
        {
            if self.added_types[j] == connection.message_type {
                known = true;
                proof {
                    assert(old_types[j as int] == connection.message_type@);
                }
            }
            j = j + 1;
        }
        let ghost old_conns = self.conns();
        let ghost old_pc = self.pending_connections_spec();
        let ghost old_pt = self.pending_types_spec();
        let ghost old_counts = self.counts@;
        if !known {
            self.added_types.push(connection.message_type.clone());
            self.pending_types.push(connection.duplicate());
            proof {
                assert(self.types() =~= old_types.push(connection.message_type@));
                assert(self.pending_types_spec() =~= old_pt.push(connection@));
                assert(!old_types.contains(connection.message_type@));
            }
        }
        self.pending_connections.push(connection.duplicate());
        let ghost before = self.connections@;
        self.connections.push(connection.duplicate());
        self.counts.push(0);
        proof {
            lemma_sum_push(old_counts, 0);
            assert(self.conns() =~= old_conns.push(connection@));
            assert(self.pending_connections_spec() =~= old_pc.push(connection@));
            assert forall|a: int| 0 <= a < self.connections@.len() implies #[trigger] self.connections@[a].id
                == a + 1 by {
                if a < before.len() {
                    assert(self.connections@[a] == before[a]);
                }
            }
            assert forall|a: int, b: int|
                0 <= a < b < self.connections@.len() implies !(#[trigger] self.connections@[a].topic@
                == #[trigger] self.connections@[b].topic@ && self.connections@[a].message_type@
                == self.connections@[b].message_type@) by {
                assert(self.connections@[a] == before[a] || a == before.len());
                if b == before.len() {
                    assert(old_conns[a] == before[a]@);
                } else {
                    assert(self.connections@[b] == before[b]);
                }
            }
        }
        Ok(connection)
    }

    /// Put one message into the buffer, count it, and flush when the buffer
    /// is full.
    fn enqueue(&mut self, connection: &Connection, timestamp: u64, payload: Vec<u8>)
        requires
            old(self).wf(),
            old(self).total_spec() < u64::MAX,
        ensures
            final(self).wf(),
            enqueued(*old(self), *final(self), (connection@, timestamp, payload@)),
    {
        let ghost old_counts = self.counts@;
        proof {
            lemma_sum_nonneg(old_counts);
        }
        if timestamp < self.min_timestamp {
            self.min_timestamp = timestamp;
        }
        if timestamp > self.max_timestamp {
            self.max_timestamp = timestamp;
        }
        self.total = self.total + 1;
        let id = connection.id;
        if 1 <= id && (id as usize) <= self.counts.len() {
            let k = (id - 1) as usize;
            proof {
                lemma_sum_bounds(old_counts, k as int);
                lemma_sum_update(old_counts, k as int, (old_counts[k as int] + 1) as u64);
            }
            let c = self.counts[k];
            self.counts.set(k, c + 1);
        } else {
            self.stray_count = self.stray_count + 1;
        }
        let ghost old_buffer = self.buffer();
        let len = payload.len();
        self.message_buffer.push((connection.duplicate(), timestamp, payload));
        proof {
            assert(self.buffer() =~= old_buffer.push((connection@, timestamp, payload@)));
        }
        if len > usize::MAX - self.current_buffer_size {
            self.current_buffer_size = usize::MAX;
        } else {
            self.current_buffer_size = self.current_buffer_size + len;
        }
        if self.message_buffer.len() >= self.batch_threshold || self.current_buffer_size
            >= self.buffer_size_limit {
            let _ = self.flush_buffer();
        }
    }

    /// Write a message on a registered connection; with message compression
    /// the payload is stored as its zstd frame.
    pub fn write(&mut self, connection: &Connection, timestamp: u64, data: &[u8]) -> (r: Result<
        (),
        BagError,
    >)
        requires
            old(self).wf(),
            old(self).total_spec() < u64::MAX,
        ensures
            final(self).wf(),
            !old(self).open_spec() ==> r == Err::<(), BagError>(BagError::BagNotOpen) && *final(self)
                == *old(self),
            old(self).open_spec() && !registered(*old(self), connection.id) ==> (r matches Err(
                BagError::ConnectionNotFound { topic },
            ) && topic@ == connection.topic@) && *final(self) == *old(self),
            old(self).open_spec() && registered(*old(self), connection.id) && compresses(*old(self))
                ==> r is Ok && enqueued(
                *old(self),
                *final(self),
                (connection@, timestamp, zstd_frame(data@)),
            ),
            old(self).open_spec() && registered(*old(self), connection.id) && !compresses(*old(self))
                ==> r is Ok && enqueued(*old(self), *final(self), (connection@, timestamp, data@)),
    {
        if !self.is_open {
            return Err(BagError::BagNotOpen);
        }
        if !(1 <= connection.id && (connection.id as usize) <= self.connections.len()) {
            return Err(BagError::ConnectionNotFound { topic: connection.topic.clone() });
        }
        let payload = if self.compression_mode == CompressionMode::Message
            && self.compression_format == CompressionFormat::Zstd {
            match zstd_compress(data) {
                Some(v) => v,
                None => {
                    return Err(
                        BagError::Compression {
                            message: String::from_str("zstd could not compress a message"),
                        },
                    );
                },
            }
        } else {
            vstd::slice::slice_to_vec(data)
        };
        self.enqueue(connection, timestamp, payload);
        Ok(())
    }

    /// Write already serialized bytes as they are: no compression and no
    /// check that the connection is registered.
    pub fn write_raw_message(&mut self, connection: &Connection, timestamp: u64, raw_data: &[u8]) -> (r:
        Result<(), BagError>)
        requires
            old(self).wf(),
            old(self).total_spec() < u64::MAX,
        ensures
            final(self).wf(),
            !old(self).open_spec() ==> r == Err::<(), BagError>(BagError::BagNotOpen) && *final(self)
                == *old(self),
            old(self).open_spec() ==> r is Ok && enqueued(
                *old(self),
                *final(self),
                (connection@, timestamp, raw_data@),
            ),
    {
        if !self.is_open {
            return Err(BagError::BagNotOpen);
        }
        self.enqueue(connection, timestamp, vstd::slice::slice_to_vec(raw_data));
        Ok(())
    }

    /// Copy a message read from another bag, bytes untouched.
    pub fn copy_raw_message_from_reader(
        &mut self,
        connection: &Connection,
        timestamp: u64,
        raw_message_data: &[u8],
    ) -> (r: Result<(), BagError>)
        requires
            old(self).wf(),
            old(self).total_spec() < u64::MAX,
        ensures
            final(self).wf(),
            !old(self).open_spec() ==> r == Err::<(), BagError>(BagError::BagNotOpen) && *final(self)
                == *old(self),
            old(self).open_spec() ==> r is Ok && enqueued(
                *old(self),
                *final(self),
                (connection@, timestamp, raw_message_data@),
            ),
    {
        self.write_raw_message(connection, timestamp, raw_message_data)
    }

    /// Hand a batch of raw messages straight to storage: pending buffered
    /// messages are flushed first, then the batch goes out whole.
    pub fn write_raw_messages_batch(&mut self, messages: &[Record]) -> (r: Result<(), BagError>)
        requires
            old(self).wf(),
            old(self).total_spec() + messages@.len() <= u64::MAX,
        ensures
            final(self).wf(),
            !old(self).open_spec() ==> r == Err::<(), BagError>(BagError::BagNotOpen) && *final(self)
                == *old(self),
            old(self).open_spec() && messages@.len() == 0 ==> r is Ok && *final(self) == *old(self),
            old(self).open_spec() && messages@.len() > 0 ==> r is Ok && same_config(
                *old(self),
                *final(self),
            ) && same_registry(*old(self), *final(self)) && final(self).buffer().len() == 0
                && final(self).buffered_bytes() == 0 && final(self).batches() == (if old(self).buffer().len()
                > 0 {
                old(self).batches().push(old(self).buffer())
            } else {
                old(self).batches()
            }).push(records_view(messages@)) && final(self).counts_spec() == tally(
                old(self).counts_spec(),
                records_view(messages@),
            ) && final(self).stray() == old(self).stray() + strays(
                old(self).conns().len() as int,
                records_view(messages@),
            ) && final(self).total_spec() == old(self).total_spec() + messages@.len()
                && final(self).min_ts() == low(old(self).min_ts(), records_view(messages@))
                && final(self).max_ts() == high(old(self).max_ts(), records_view(messages@)),
    {
        if !self.is_open {
            return Err(BagError::BagNotOpen);
        }
        if messages.len() == 0 {
            return Ok(());
        }
        let _ = self.flush_buffer();
        let ghost start = *self;
        let ghost rv = records_view(messages@);
        let mut batch: Vec<Record> = Vec::new();
        let mut i: usize = 0;
        while i < messages.len()
            invariant
                self.wf(),
                i <= messages@.len(),
                rv == records_view(messages@),
                start.total_spec() + messages@.len() <= u64::MAX,
                same_config(start, *self),
                same_registry(start, *self),
                same_buffers(start, *self),
                self.counts_spec() == tally(start.counts_spec(), rv.take(i as int)),
                self.stray() == start.stray() + strays(start.conns().len() as int, rv.take(i as int)),
                self.total_spec() == start.total_spec() + i,
                self.min_ts() == low(start.min_ts(), rv.take(i as int)),
                self.max_ts() == high(start.max_ts(), rv.take(i as int)),
                records_view(batch@) == rv.take(i as int),
            decreases messages@.len() - i,
        {
            let ghost old_counts = self.counts@;
            proof {
                lemma_sum_nonneg(old_counts);
                assert(rv.take(i + 1).drop_last() =~= rv.take(i as int));
                assert(rv.take(i + 1).last() == rv[i as int]);
                assert(rv[i as int] == record_view(messages@[i as int]));
            }
            let timestamp = messages[i].1;
            if timestamp < self.min_timestamp {
                self.min_timestamp = timestamp;
            }
            if timestamp > self.max_timestamp {
                self.max_timestamp = timestamp;
            }
            self.total = self.total + 1;
            let id = messages[i].0.id;
            if 1 <= id && (id as usize) <= self.counts.len() {
                let k = (id - 1) as usize;
                proof {
                    lemma_sum_bounds(old_counts, k as int);
                    lemma_sum_update(old_counts, k as int, (old_counts[k as int] + 1) as u64);
                }
                let c = self.counts[k];
                self.counts.set(k, c + 1);
            } else {
                self.stray_count = self.stray_count + 1;
            }
            let ghost before = batch@;
            batch.push((messages[i].0.duplicate(), timestamp, copy_bytes(&messages[i].2)));
            proof {
                assert(records_view(batch@) =~= records_view(before).push(rv[i as int]));
                assert(rv.take(i + 1) =~= rv.take(i as int).push(rv[i as int]));
            }
            i = i + 1;
        }
        let ghost old_batches = self.batches();
        self.pending_batches.push(batch);
        proof {
            assert(rv.take(i as int) =~= rv);
            assert(self.batches() =~= old_batches.push(rv));
        }
        Ok(())
    }

    /// The manifest that describes what was written so far.
    pub fn generate_metadata(&self) -> (r: BagMetadata)
        requires
            self.wf(),
        ensures
            manifest_of(*self, r.rosbag2_bagfile_information),
    {
        let mut name = self.bag_name.clone();
        match self.storage_plugin {
            StoragePlugin::Sqlite3 => name.append(".db3"),
            StoragePlugin::Mcap => name.append(".mcap"),
        }
        if self.compression_mode == CompressionMode::File {
            name.append(".");
            name.append(self.compression_format.as_str());
        }
        let start: u64 = if self.total == 0 {
            0
        } else {
            self.min_timestamp
        };
        let duration: u64 = if self.total == 0 || self.max_timestamp < self.min_timestamp {
            0
        } else {
            self.max_timestamp - self.min_timestamp
        };
        let (compression_format, compression_mode) = if self.compression_mode == CompressionMode::Off {
            (String::new(), String::new())
        } else {
            (
                String::from_str(self.compression_format.as_str()),
                String::from_str(self.compression_mode.as_str()),
            )
        };
        let mut topics: Vec<TopicWithMessageCount> = Vec::new();
        let mut i: usize = 0;
        while i < self.connections.len()
            invariant
                self.wf(),
                i <= self.connections@.len(),
                topics@.len() == i,
                forall|k: int|
                    0 <= k < i ==> topic_entry(
                        #[trigger] topics@[k],
                        self.conns()[k],
                        self.counts_spec()[k],
                    ),
            decreases self.connections@.len() - i,
        {
            let c = &self.connections[i];
            let entry = TopicWithMessageCount {
                message_count: self.counts[i],
                topic_metadata: TopicMetadata {
                    name: c.topic.clone(),
                    message_type: c.message_type.clone(),
                    serialization_format: c.serialization_format.clone(),
                    offered_qos_profiles: QosProfilesField::List(copy_profiles(&c.offered_qos_profiles)),
                    type_description_hash: c.type_description_hash.clone(),
                },
            };
            topics.push(entry);
            proof {
                assert(self.conns()[i as int] == self.connections@[i as int]@);
            }
            i = i + 1;
        }
        let custom_data = if self.custom_data.len() == 0 {
            None
        } else {
            let mut pairs: Vec<(String, String)> = Vec::new();
            let mut j: usize = 0;
            while j < self.custom_data.len()
                invariant
                    j <= self.custom_data@.len(),
                    pairs@.len() == j,
                    pairs@.map_values(|p: (String, String)| (p.0@, p.1@)) == self.custom().take(
                        j as int,
                    ),
                decreases self.custom_data@.len() - j,
            {
                let ghost before = pairs@;
                let k0 = self.custom_data[j].0.clone();
                let k1 = self.custom_data[j].1.clone();
                pairs.push((k0, k1));
                proof {
                    let f = |p: (String, String)| (p.0@, p.1@);
                    assert(self.custom()[j as int] == f(self.custom_data@[j as int]));
                    assert(pairs@ == before.push((k0, k1)));
                    assert(before.map_values(f) == self.custom().take(j as int));
                    assert forall|x: int| 0 <= x <= j implies #[trigger] pairs@.map_values(f)[x]
                        == self.custom().take(j + 1)[x] by {
                        if x < j {
                            assert(pairs@[x] == before[x]);
                            assert(before.map_values(f)[x] == self.custom().take(j as int)[x]);
                        }
                    }
                    assert(pairs@.map_values(f) =~= self.custom().take(j + 1));
                }
                j = j + 1;
            }
            proof {
                assert(self.custom().take(j as int) =~= self.custom());
            }
            Some(pairs)
        };
        let mut files: Vec<FileInformation> = Vec::new();
        files.push(
            FileInformation {
                path: name.clone(),
                starting_time: StartingTime { nanoseconds_since_epoch: start },
                duration: Duration { nanoseconds: duration },
                message_count: self.total,
            },
        );
        let mut paths: Vec<String> = Vec::new();
        paths.push(name);
        let info = BagFileInformation {
            version: self.version,
            storage_identifier: String::from_str(self.storage_plugin.as_str()),
            relative_file_paths: paths,
            duration: Duration { nanoseconds: duration },
            starting_time: StartingTime { nanoseconds_since_epoch: start },
            message_count: self.total,
            compression_format,
            compression_mode,
            topics_with_message_count: topics,
            files,
            custom_data,
            ros_distro: Some(String::from_str("rosbags")),
        };
        proof {
            reveal_strlit("");
            let w = *self;
            assert(info.relative_file_paths@[0]@ == storage_file_name(w.bag_name_spec(), w.plugin(), w.mode(), w.format()));
            assert(info.storage_identifier@ == plugin_name(w.plugin()));
            assert(info.compression_format@ == (if w.mode() == CompressionMode::Off {
                ""@
            } else {
                format_name(w.format())
            }));
            assert(info.files@[0].path@ == storage_file_name(w.bag_name_spec(), w.plugin(), w.mode(), w.format()));
            assert(if w.custom().len() == 0 {
                info.custom_data is None
            } else {
                info.custom_data matches Some(v) && v@.map_values(|p: (String, String)| (p.0@, p.1@))
                    == w.custom()
            });
            assert(info.ros_distro matches Some(d) && d@ == "rosbags"@);
        }
        BagMetadata { rosbag2_bagfile_information: info }
    }

    /// Close the bag: flush what is buffered and return the manifest to be
    /// written beside the storage. Closing a closed bag does nothing.
    pub fn close(&mut self) -> (r: Result<Option<BagMetadata>, BagError>)
        requires
            old(self).wf(),
        ensures
            final(self).wf(),
            !old(self).open_spec() ==> (r matches Ok(None)) && *final(self) == *old(self),
            old(self).open_spec() ==> (r matches Ok(Some(m)) && manifest_of(
                *final(self),
                m.rosbag2_bagfile_information,
            )) && !final(self).open_spec() && same_registry(*old(self), *final(self)) && same_stats(
                *old(self),
                *final(self),
            ) && final(self).buffer().len() == 0 && final(self).batches() == (if old(self).buffer().len()
                > 0 {
                old(self).batches().push(old(self).buffer())
            } else {
                old(self).batches()
            }) && final(self).bag_name_spec() == old(self).bag_name_spec() && final(self).version_spec()
                == old(self).version_spec() && final(self).plugin() == old(self).plugin() && final(self).mode() == old(self).mode() && final(self).format() == old(self).format(),
    {
        if !self.is_open {
            return Ok(None);
        }
        let _ = self.flush_buffer();
        self.is_open = false;
        let m = self.generate_metadata();
        Ok(Some(m))
    }
}

/// Messages handed on so far: the flushed batches in order, then the
/// buffer.
pub open spec fn handed_on(w: Writer) -> Seq<(ConnectionView, u64, Seq<u8>)> {
    w.batches().flatten() + w.buffer()
}

/// Message counts of a manifest's topics, in order.
pub open spec fn topic_counts(info: BagFileInformation) -> Seq<u64> {
    info.topics_with_message_count@.map_values(|t: TopicWithMessageCount| t.message_count)
}

/// Writing a message loses, duplicates and reorders nothing: what the
/// writer hands to storage (flushed batches, then the buffer) grows by
/// exactly that message.
pub proof fn lemma_write_keeps_order(old: Writer, new: Writer, rec: (ConnectionView, u64, Seq<u8>))
    requires
        enqueued(old, new, rec),
    ensures
        handed_on(new) == handed_on(old).push(rec),
{
    let buf = old.buffer().push(rec);
    if buf.len() >= old.threshold() || sat_add(old.buffered_bytes(), rec.2.len() as int)
        >= old.limit() {
        old.batches().lemma_flatten_push(buf);
        assert(new.buffer() =~= Seq::<(ConnectionView, u64, Seq<u8>)>::empty());
        assert(handed_on(new) =~= handed_on(old).push(rec));
    } else {
        assert(handed_on(new) =~= handed_on(old).push(rec));
    }
}

/// In the manifest of a writer whose every message went to a registered
/// connection, the per-topic counts add up to the total message count.
pub proof fn lemma_manifest_counts_add_up(w: Writer, info: BagFileInformation)
    requires
        w.wf(),
        w.stray() == 0,
        manifest_of(w, info),
    ensures
        sum(topic_counts(info)) == info.message_count,
{
    assert(topic_counts(info) =~= w.counts_spec()) by {
        assert forall|i: int| 0 <= i < w.conns().len() implies topic_counts(info)[i]
            == w.counts_spec()[i] by {
            assert(topic_entry(info.topics_with_message_count@[i], w.conns()[i], w.counts_spec()[i]));
        }
    }
}

/// What every well-formed writer satisfies: one count per connection, the
/// total is the counts plus the messages on unregistered ids, and the
/// timestamp bounds are those of the messages written (none: the largest
/// and smallest timestamps; one: equal).
pub proof fn lemma_writer_facts(w: Writer)
    requires
        w.wf(),
    ensures
        w.counts_spec().len() == w.conns().len(),
        w.total_spec() == sum(w.counts_spec()) + w.stray(),
        w.total_spec() == 0 ==> w.min_ts() == u64::MAX && w.max_ts() == 0 && w.stray() == 0
            && forall|i: int| 0 <= i < w.counts_spec().len() ==> #[trigger] w.counts_spec()[i] == 0,
        w.total_spec() > 0 ==> w.min_ts() <= w.max_ts(),
        w.total_spec() == 1 ==> w.min_ts() == w.max_ts(),
{
    lemma_sum_nonneg(w.counts_spec());
    if w.total_spec() == 0 {
        assert forall|i: int| 0 <= i < w.counts_spec().len() implies #[trigger] w.counts_spec()[i]
            == 0 by {
            lemma_sum_bounds(w.counts_spec(), i);
        }
    }
}

/// A bag with no messages has a manifest with zero start, duration, end and
/// per-topic counts.
pub proof fn lemma_empty_manifest(w: Writer, info: BagFileInformation)
    requires
        w.wf(),
        w.total_spec() == 0,
        manifest_of(w, info),
    ensures
        info.message_count == 0,
        info.duration.nanoseconds == 0,
        info.starting_time.nanoseconds_since_epoch == 0,
        crate::metadata::end_time_of(info) == 0,
        forall|i: int|
            0 <= i < info.topics_with_message_count@.len()
                ==> #[trigger] info.topics_with_message_count@[i].message_count == 0,
{
    lemma_writer_facts(w);
    assert forall|i: int| 0 <= i < info.topics_with_message_count@.len() implies
        #[trigger] info.topics_with_message_count@[i].message_count == 0 by {
        assert(topic_entry(info.topics_with_message_count@[i], w.conns()[i], w.counts_spec()[i]));
    }
}

/// A bag with exactly one message, whichever path wrote it, has a manifest
/// with duration 0 that starts and ends at the same timestamp.
pub proof fn lemma_one_message_manifest(w: Writer, info: BagFileInformation)
    requires
        w.wf(),
        w.total_spec() == 1,
        manifest_of(w, info),
    ensures
        info.message_count == 1,
        info.duration.nanoseconds == 0,
        info.starting_time.nanoseconds_since_epoch == w.min_ts(),
        crate::metadata::end_time_of(info) == w.min_ts(),
{
    lemma_writer_facts(w);
}

/// After a single message on an empty writer, the manifest has duration 0
/// and starts and ends at that message's timestamp.
pub proof fn lemma_single_message_manifest(
    w0: Writer,
    w1: Writer,
    rec: (ConnectionView, u64, Seq<u8>),
    info: BagFileInformation,
)
    requires
        w0.wf(),
        w0.total_spec() == 0,
        enqueued(w0, w1, rec),
        manifest_of(w1, info),
    ensures
        info.message_count == 1,
        info.duration.nanoseconds == 0,
        info.starting_time.nanoseconds_since_epoch == rec.1,
        crate::metadata::end_time_of(info) == rec.1,
{
}

/// Compress a whole storage file's bytes for file-level compression.
pub fn compress_bytes(data: &[u8]) -> (r: Result<Vec<u8>, BagError>)
    ensures
        r matches Ok(v) && v@ == zstd_frame(data@),
{
    match zstd_compress(data) {
        Some(v) => Ok(v),
        None => Err(BagError::Compression { message: String::from_str("zstd could not compress the file") }),
    }
}

} // verus!
