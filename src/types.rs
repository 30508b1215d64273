//! Core data types of a bag: connections, QoS profiles, messages and the
//! small enumerations of the manifest.

use vstd::prelude::*;

verus! {

/// Format of a message definition.
#[derive(Clone, Copy, Debug, PartialEq, Eq, Structural)]
pub enum MessageDefinitionFormat {
    /// No definition available.
    Absent,
    /// ROS message format (.msg files).
    Msg,
    /// Interface Definition Language.
    Idl,
}

/// A message definition: its format and text.
#[derive(Clone, Debug)]
pub struct MessageDefinition {
    pub format: MessageDefinitionFormat,
    pub data: String,
}

/// QoS history policy.
#[derive(Clone, Copy, Debug, PartialEq, Eq, Structural)]
pub enum QosHistory {
    SystemDefault,
    KeepLast,
    KeepAll,
    Unknown,
}

/// QoS reliability policy.
#[derive(Clone, Copy, Debug, PartialEq, Eq, Structural)]
pub enum QosReliability {
    SystemDefault,
    Reliable,
    BestEffort,
    Unknown,
    BestAvailable,
}

/// QoS durability policy.
#[derive(Clone, Copy, Debug, PartialEq, Eq, Structural)]
pub enum QosDurability {
    SystemDefault,
    TransientLocal,
    Volatile,
    Unknown,
    BestAvailable,
}

/// QoS liveliness policy.
#[derive(Clone, Copy, Debug, PartialEq, Eq, Structural)]
pub enum QosLiveliness {
    SystemDefault,
    Automatic,
    ManualByNode,
    ManualByTopic,
    Unknown,
    BestAvailable,
}

/// A span of time in a QoS profile.
#[derive(Clone, Copy, Debug, PartialEq, Eq, Structural)]
pub struct QosTime {
    pub sec: i32,
    pub nsec: u32,
}

/// A QoS profile offered on a topic.
#[derive(Clone, Copy, Debug, PartialEq, Eq, Structural)]
pub struct QosProfile {
    pub history: QosHistory,
    pub depth: u32,
    pub reliability: QosReliability,
    pub durability: QosDurability,
    pub deadline: QosTime,
    pub lifespan: QosTime,
    pub liveliness: QosLiveliness,
    pub liveliness_lease_duration: QosTime,
    pub avoid_ros_namespace_conventions: bool,
}

/// A declared (topic, message type) channel of a bag.
#[derive(Clone, Debug)]
pub struct Connection {
    /// Unique id within the bag, from 1 upward.
    pub id: u32,
    pub topic: String,
    pub message_type: String,
    pub message_definition: MessageDefinition,
    pub type_description_hash: String,
    /// Number of messages on this connection.
    pub message_count: u64,
    /// Serialization format, "cdr" by default.
    pub serialization_format: String,
    pub offered_qos_profiles: Vec<QosProfile>,
}

/// What a connection is, with its strings and lists as sequences.
pub ghost struct ConnectionView {
    pub id: u32,
    pub topic: Seq<char>,
    pub message_type: Seq<char>,
    pub definition_format: MessageDefinitionFormat,
    pub definition: Seq<char>,
    pub type_description_hash: Seq<char>,
    pub message_count: u64,
    pub serialization_format: Seq<char>,
    pub offered_qos_profiles: Seq<QosProfile>,
}

impl View for Connection {
    type V = ConnectionView;

    open spec fn view(&self) -> ConnectionView {
        ConnectionView {
            id: self.id,
            topic: self.topic@,
            message_type: self.message_type@,
            definition_format: self.message_definition.format,
            definition: self.message_definition.data@,
            type_description_hash: self.type_description_hash@,
            message_count: self.message_count,
            serialization_format: self.serialization_format@,
            offered_qos_profiles: self.offered_qos_profiles@,
        }
    }
}

/// Summary of one topic of an open bag.
#[derive(Clone, Debug)]
pub struct TopicInfo {
    pub name: String,
    pub message_type: String,
    pub message_definition: MessageDefinition,
    pub message_count: u64,
    pub connections: Vec<Connection>,
}

/// One timestamped message of a bag.
#[derive(Clone, Debug)]
pub struct Message {
    /// The connection the message belongs to.
    pub connection: Connection,
    /// Its topic (the connection's).
    pub topic: String,
    /// Nanoseconds since the epoch.
    pub timestamp: u64,
    /// The serialized payload.
    pub data: Vec<u8>,
}

/// What a message is, with its strings and bytes as sequences.
pub ghost struct MessageView {
    pub connection: ConnectionView,
    pub topic: Seq<char>,
    pub timestamp: u64,
    pub data: Seq<u8>,
}

impl View for Message {
    type V = MessageView;

    open spec fn view(&self) -> MessageView {
        MessageView {
            connection: self.connection@,
            topic: self.topic@,
            timestamp: self.timestamp,
            data: self.data@,
        }
    }
}

/// A duration in nanoseconds.
#[derive(Clone, Copy, Debug, PartialEq, Eq, Structural)]
pub struct Duration {
    pub nanoseconds: u64,
}

/// A point in time in nanoseconds since the epoch.
#[derive(Clone, Copy, Debug, PartialEq, Eq, Structural)]
pub struct StartingTime {
    pub nanoseconds_since_epoch: u64,
}

/// How a bag is compressed.
#[derive(Clone, Copy, Debug, PartialEq, Eq, Structural)]
pub enum CompressionMode {
    /// Not compressed.
    Off,
    /// Each payload on its own.
    Message,
    /// The whole storage file.
    File,
    /// Inside the storage backend.
    Storage,
}

/// The compression algorithm.
#[derive(Clone, Copy, Debug, PartialEq, Eq, Structural)]
pub enum CompressionFormat {
    /// No algorithm given.
    Absent,
    Zstd,
}

/// The storage backend of a bag.
#[derive(Clone, Copy, Debug, PartialEq, Eq, Structural)]
pub enum StoragePlugin {
    Sqlite3,
    Mcap,
}

/// The manifest name of a compression mode.
pub open spec fn mode_name(m: CompressionMode) -> Seq<char> {
    match m {
        CompressionMode::Off => ""@,
        CompressionMode::Message => "message"@,
        CompressionMode::File => "file"@,
        CompressionMode::Storage => "storage"@,
    }
}

/// The manifest name of a compression format.
pub open spec fn format_name(f: CompressionFormat) -> Seq<char> {
    match f {
        CompressionFormat::Absent => ""@,
        CompressionFormat::Zstd => "zstd"@,
    }
}

/// The storage identifier of a backend.
pub open spec fn plugin_name(p: StoragePlugin) -> Seq<char> {
    match p {
        StoragePlugin::Sqlite3 => "sqlite3"@,
        StoragePlugin::Mcap => "mcap"@,
    }
}

/// The default QoS profile: every policy at its system default, all spans
/// zero.
pub open spec fn default_qos() -> QosProfile {
    QosProfile {
        history: QosHistory::SystemDefault,
        depth: 0,
        reliability: QosReliability::SystemDefault,
        durability: QosDurability::SystemDefault,
        deadline: QosTime { sec: 0, nsec: 0 },
        lifespan: QosTime { sec: 0, nsec: 0 },
        liveliness: QosLiveliness::SystemDefault,
        liveliness_lease_duration: QosTime { sec: 0, nsec: 0 },
        avoid_ros_namespace_conventions: false,
    }
}

impl Default for QosTime {
    fn default() -> (r: QosTime)
        ensures
            r == (QosTime { sec: 0, nsec: 0 }),
    {
        QosTime { sec: 0, nsec: 0 }
    }
}

impl Default for QosProfile {
    fn default() -> (r: QosProfile)
        ensures
            r == default_qos(),
    {
        QosProfile {
            history: QosHistory::SystemDefault,
            depth: 0,
            reliability: QosReliability::SystemDefault,
            durability: QosDurability::SystemDefault,
            deadline: QosTime { sec: 0, nsec: 0 },
            lifespan: QosTime { sec: 0, nsec: 0 },
            liveliness: QosLiveliness::SystemDefault,
            liveliness_lease_duration: QosTime { sec: 0, nsec: 0 },
            avoid_ros_namespace_conventions: false,
        }
    }
}

impl Default for MessageDefinition {
    fn default() -> (r: MessageDefinition)
        ensures
            r.format == MessageDefinitionFormat::Absent,
            r.data@ == Seq::<char>::empty(),
    {
        MessageDefinition { format: MessageDefinitionFormat::Absent, data: String::new() }
    }
}

impl MessageDefinition {
    /// A copy with the same format and text.
    pub fn duplicate(&self) -> (r: MessageDefinition)
        ensures
            r == *self,
    {
        MessageDefinition { format: self.format, data: self.data.clone() }
    }
}

/// A copy of a list of QoS profiles.
pub fn copy_profiles(p: &Vec<QosProfile>) -> (r: Vec<QosProfile>)
    ensures
        r@ == p@,
{
    let mut r: Vec<QosProfile> = Vec::new();
    let mut i: usize = 0;
    while i < p.len()
        invariant
            i <= p@.len(),
            r@ == p@.subrange(0, i as int),
        decreases p@.len() - i,
    {
        r.push(p[i]);
        i = i + 1;
        proof {
            assert(r@ =~= p@.subrange(0, i as int));
        }
    }
    proof {
        assert(p@.subrange(0, i as int) =~= p@);
    }
    r
}

impl Connection {
    /// A copy of this connection, field for field.
    pub fn duplicate(&self) -> (r: Connection)
        ensures
            r@ == self@,
    {
        Connection {
            id: self.id,
            topic: self.topic.clone(),
            message_type: self.message_type.clone(),
            message_definition: self.message_definition.duplicate(),
            type_description_hash: self.type_description_hash.clone(),
            message_count: self.message_count,
            serialization_format: self.serialization_format.clone(),
            offered_qos_profiles: copy_profiles(&self.offered_qos_profiles),
        }
    }

    /// The message type.
    pub fn msgtype(&self) -> (r: &str)
        ensures
            r@ == self.message_type@,
    {
        self.message_type.as_str()
    }

    /// The number of messages on this connection.
    pub fn msgcount(&self) -> (r: u64)
        ensures
            r == self.message_count,
    {
        self.message_count
    }
}

impl Message {
    /// A copy of this message, field for field.
    pub fn duplicate(&self) -> (r: Message)
        ensures
            r@ == self@,
    {
        Message {
            connection: self.connection.duplicate(),
            topic: self.topic.clone(),
            timestamp: self.timestamp,
            data: copy_bytes(&self.data),
        }
    }
}

/// A copy of a byte vector.
pub fn copy_bytes(b: &Vec<u8>) -> (r: Vec<u8>)
    ensures
        r@ == b@,
{
    vstd::slice::slice_to_vec(b.as_slice())
}

impl CompressionMode {
    /// The manifest name: "", "message", "file" or "storage".
    pub fn as_str(&self) -> (r: &'static str)
        ensures
            r@ == mode_name(*self),
    {
        match self {
            CompressionMode::Off => "",
            CompressionMode::Message => "message",
            CompressionMode::File => "file",
            CompressionMode::Storage => "storage",
        }
    }
}

impl CompressionFormat {
    /// The manifest name: "" or "zstd".
    pub fn as_str(&self) -> (r: &'static str)
        ensures
            r@ == format_name(*self),
    {
        match self {
            CompressionFormat::Absent => "",
            CompressionFormat::Zstd => "zstd",
        }
    }
}

impl StoragePlugin {
    /// The storage identifier: "sqlite3" or "mcap".
    pub fn as_str(&self) -> (r: &'static str)
        ensures
            r@ == plugin_name(*self),
    {
        match self {
            StoragePlugin::Sqlite3 => "sqlite3",
            StoragePlugin::Mcap => "mcap",
        }
    }
}

/// The encoding tag stored with a definition of a format; a definition
/// without a format is stored as a message-format one.
pub open spec fn encoding_of(f: MessageDefinitionFormat) -> Seq<char> {
    match f {
        MessageDefinitionFormat::Idl => "ros2idl"@,
        _ => "ros2msg"@,
    }
}

/// The format that a stored encoding tag denotes.
pub open spec fn format_of_encoding(tag: Seq<char>) -> MessageDefinitionFormat {
    if tag == "ros2msg"@ {
        MessageDefinitionFormat::Msg
    } else if tag == "ros2idl"@ {
        MessageDefinitionFormat::Idl
    } else {
        MessageDefinitionFormat::Absent
    }
}

impl MessageDefinitionFormat {
    /// The encoding tag to store with a definition of this format.
    pub fn encoding_name(&self) -> (r: &'static str)
        ensures
            r@ == encoding_of(*self),
    {
        match self {
            MessageDefinitionFormat::Idl => "ros2idl",
            _ => "ros2msg",
        }
    }

    /// The format that a stored encoding tag denotes.
    pub fn from_encoding(tag: &str) -> (r: MessageDefinitionFormat)
        ensures
            r == format_of_encoding(tag@),
    {
        if crate::metadata::text_eq(tag, "ros2msg") {
            MessageDefinitionFormat::Msg
        } else if crate::metadata::text_eq(tag, "ros2idl") {
            MessageDefinitionFormat::Idl
        } else {
            MessageDefinitionFormat::Absent
        }
    }
}

} // verus!
