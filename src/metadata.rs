//! The bag manifest: its model, its validation, and what callers read off it.

use vstd::prelude::*;

use crate::error::BagError;
use crate::types::{Duration, QosProfile, StartingTime, StoragePlugin};

verus! {

/// The whole manifest document.
#[derive(Clone, Debug)]
pub struct BagMetadata {
    pub rosbag2_bagfile_information: BagFileInformation,
}

/// The manifest's record of the bag.
#[derive(Clone, Debug)]
pub struct BagFileInformation {
    /// Manifest format version, 1 to 9.
    pub version: u32,
    /// "sqlite3", "mcap", or "" to choose by file extension.
    pub storage_identifier: String,
    /// Storage files, relative to the bag directory.
    pub relative_file_paths: Vec<String>,
    pub duration: Duration,
    pub starting_time: StartingTime,
    pub message_count: u64,
    /// "" or "zstd".
    pub compression_format: String,
    /// "", "file", "message" or "storage".
    pub compression_mode: String,
    pub topics_with_message_count: Vec<TopicWithMessageCount>,
    /// Per-file records (version 5 on).
    pub files: Vec<FileInformation>,
    /// Custom key/value pairs (version 6 on), keys unique.
    pub custom_data: Option<Vec<(String, String)>>,
    /// Distribution tag (version 8 on).
    pub ros_distro: Option<String>,
}

/// A topic of the manifest with its message count.
#[derive(Clone, Debug)]
pub struct TopicWithMessageCount {
    pub message_count: u64,
    pub topic_metadata: TopicMetadata,
}

/// The manifest's description of a topic.
#[derive(Clone, Debug)]
pub struct TopicMetadata {
    pub name: String,
    pub message_type: String,
    pub serialization_format: String,
    pub offered_qos_profiles: QosProfilesField,
    /// Version 7 on.
    pub type_description_hash: String,
}

/// Offered QoS profiles: a string in older manifests, forwarded verbatim,
/// or a list.
#[derive(Clone, Debug)]
pub enum QosProfilesField {
    String(String),
    List(Vec<QosProfile>),
}

/// The manifest's record of one storage file (version 5 on).
#[derive(Clone, Debug)]
pub struct FileInformation {
    pub path: String,
    pub starting_time: StartingTime,
    pub duration: Duration,
    pub message_count: u64,
}

/// The newest manifest version this library reads and writes.
pub const VERSION_LATEST: u32 = 9;

/// Whether `suffix` ends `s`.
pub open spec fn has_suffix(s: Seq<char>, suffix: Seq<char>) -> bool {
    suffix.len() <= s.len() && s.subrange(s.len() - suffix.len(), s.len() as int) == suffix
}

/// Relies on `str::ends_with`: with a string pattern it is true exactly
/// when the pattern is a suffix of the string.
#[verifier::external_body]
pub(crate) fn ends_with(s: &str, suffix: &str) -> (r: bool)
    ensures
        r == has_suffix(s@, suffix@),
{
    s.ends_with(suffix)
}

/// Whether two strings hold the same characters.
pub fn text_eq(a: &str, b: &str) -> (r: bool)
    ensures
        r == (a@ == b@),
{
    let x = a.as_bytes();
    let y = b.as_bytes();
    if x.len() != y.len() {
        return false;
    }
    let mut i: usize = 0;
    while i < x.len()
        invariant
            i <= x@.len(),
            x@ == vstd::utf8::encode_utf8(a@),
            y@ == vstd::utf8::encode_utf8(b@),
            x@.len() == y@.len(),
            x@.subrange(0, i as int) == y@.subrange(0, i as int),
        decreases x@.len() - i,
    {
        if x[i] != y[i] {
            proof {
                assert(x@ != y@) by {
                    assert(x@[i as int] != y@[i as int]);
                }
                if a@ == b@ {
                    assert(vstd::utf8::encode_utf8(a@) == vstd::utf8::encode_utf8(b@));
                }
            }
            return false;
        }
        proof {
            assert(x@.subrange(0, i + 1) =~= x@.subrange(0, i as int).push(x@[i as int]));
            assert(y@.subrange(0, i + 1) =~= y@.subrange(0, i as int).push(y@[i as int]));
        }
        i = i + 1;
    }
    proof {
        assert(x@ =~= x@.subrange(0, i as int));
        assert(y@ =~= y@.subrange(0, i as int));
        vstd::utf8::encode_utf8_decode_utf8(a@);
        vstd::utf8::encode_utf8_decode_utf8(b@);
    }
    true
}

/// Whether some path ends with `suffix`.
pub open spec fn any_has_suffix(paths: Seq<String>, suffix: Seq<char>) -> bool {
    exists|i: int| 0 <= i < paths.len() && has_suffix(#[trigger] paths[i]@, suffix)
}

fn any_ends_with(paths: &Vec<String>, suffix: &str) -> (r: bool)
    ensures
        r == any_has_suffix(paths@, suffix@),
{
    let mut i: usize = 0;
    while i < paths.len()
        invariant
            i <= paths@.len(),
            forall|k: int| 0 <= k < i ==> !has_suffix(#[trigger] paths@[k]@, suffix@),
        decreases paths@.len() - i,
    {
        if ends_with(paths[i].as_str(), suffix) {
            return true;
        }
        i = i + 1;
    }
    false
}

/// The backend that a storage identifier and the file list select: the
/// identifier when it names one, else by extension (".db3" first).
pub open spec fn storage_choice(id: Seq<char>, paths: Seq<String>) -> Option<StoragePlugin> {
    if id == "sqlite3"@ {
        Some(StoragePlugin::Sqlite3)
    } else if id == "mcap"@ {
        Some(StoragePlugin::Mcap)
    } else if id == ""@ && any_has_suffix(paths, ".db3"@) {
        Some(StoragePlugin::Sqlite3)
    } else if id == ""@ && any_has_suffix(paths, ".mcap"@) {
        Some(StoragePlugin::Mcap)
    } else {
        None
    }
}

/// What is reported when no backend can be chosen.
pub open spec fn unsupported_storage(id: Seq<char>, r: BagError) -> bool {
    r matches BagError::UnsupportedStorageFormat { format } && (id != ""@ ==> format@ == id)
}

/// Choose the storage backend for a storage identifier and the storage files.
pub fn resolve_storage_plugin(identifier: &str, paths: &Vec<String>) -> (r: Result<
    StoragePlugin,
    BagError,
>)
    ensures
        storage_choice(identifier@, paths@) matches Some(p) ==> r == Ok::<StoragePlugin, BagError>(
            p,
        ),
        storage_choice(identifier@, paths@) is None ==> (r matches Err(e) && unsupported_storage(
            identifier@,
            e,
        )),
{
    if text_eq(identifier, "sqlite3") {
        Ok(StoragePlugin::Sqlite3)
    } else if text_eq(identifier, "mcap") {
        Ok(StoragePlugin::Mcap)
    } else if identifier.is_empty() {
        proof {
            reveal_strlit("");
            assert(identifier@ =~= ""@);
        }
        if any_ends_with(paths, ".db3") {
            Ok(StoragePlugin::Sqlite3)
        } else if any_ends_with(paths, ".mcap") {
            Ok(StoragePlugin::Mcap)
        } else {
            Err(
                BagError::UnsupportedStorageFormat {
                    format: String::from_str("unknown (no .db3 or .mcap files found)"),
                },
            )
        }
    } else {
        proof {
            assert(identifier@ != ""@) by {
                reveal_strlit("");
            }
        }
        Err(BagError::UnsupportedStorageFormat { format: String::from_str(identifier) })
    }
}

/// Whether a manifest is one this library reads: version 1 to 9, a
/// storage backend it can choose, no compression but zstd, every topic in
/// CDR.
pub open spec fn manifest_valid(info: BagFileInformation) -> bool {
    &&& 1 <= info.version <= VERSION_LATEST
    &&& storage_choice(info.storage_identifier@, info.relative_file_paths@) is Some
    &&& (info.compression_format@ == ""@ || info.compression_format@ == "zstd"@)
    &&& forall|i: int|
        0 <= i < info.topics_with_message_count@.len()
            ==> #[trigger] info.topics_with_message_count@[i].topic_metadata.serialization_format@
            == "cdr"@
}

/// The error that validation reports for a manifest, checks in order:
/// version, storage, compression, serialization formats.
pub open spec fn validation_error(info: BagFileInformation, e: BagError) -> bool {
    if info.version < 1 || info.version > VERSION_LATEST {
        e == BagError::UnsupportedVersion { version: info.version }
    } else if storage_choice(info.storage_identifier@, info.relative_file_paths@) is None {
        unsupported_storage(info.storage_identifier@, e)
    } else if !(info.compression_format@ == ""@ || info.compression_format@ == "zstd"@) {
        e matches BagError::UnsupportedCompressionFormat { format } && format@
            == info.compression_format@
    } else {
        e matches BagError::UnsupportedSerializationFormat { format } && exists|i: int|
            0 <= i < info.topics_with_message_count@.len() && format@
                == info.topics_with_message_count@[i].topic_metadata.serialization_format@
                && format@ != "cdr"@
    }
}

impl BagMetadata {
    /// Check that this manifest is one the library reads.
    pub fn validate(&self) -> (r: Result<(), BagError>)
        ensures
            r is Ok <==> manifest_valid(self.rosbag2_bagfile_information),
            r matches Err(e) ==> validation_error(self.rosbag2_bagfile_information, e),
    {
        let info = &self.rosbag2_bagfile_information;
        if info.version < 1 || info.version > VERSION_LATEST {
            return Err(BagError::UnsupportedVersion { version: info.version });
        }
        let _plugin = resolve_storage_plugin(
            info.storage_identifier.as_str(),
            &info.relative_file_paths,
        )?;
        if !info.compression_format.as_str().is_empty() && !text_eq(
            info.compression_format.as_str(),
            "zstd",
        ) {
            proof {
                assert(info.compression_format@ != ""@) by {
                    reveal_strlit("");
                }
            }
            return Err(
                BagError::UnsupportedCompressionFormat {
                    format: info.compression_format.clone(),
                },
            );
        }
        proof {
            reveal_strlit("");
            if info.compression_format@.len() == 0 {
                assert(info.compression_format@ =~= ""@);
            }
        }
        let topics = &info.topics_with_message_count;
        let mut i: usize = 0;
        while i < topics.len()
            invariant
                i <= topics@.len(),
                topics == &info.topics_with_message_count,
                info == &self.rosbag2_bagfile_information,
                1 <= info.version <= VERSION_LATEST,
                storage_choice(info.storage_identifier@, info.relative_file_paths@) is Some,
                info.compression_format@ == ""@ || info.compression_format@ == "zstd"@,
                forall|k: int|
                    0 <= k < i ==> #[trigger] topics@[k].topic_metadata.serialization_format@
                        == "cdr"@,
            decreases topics@.len() - i,
        {
            let f = &topics[i].topic_metadata.serialization_format;
            if !text_eq(f.as_str(), "cdr") {
                proof {
                    assert(info.topics_with_message_count@[i as int].topic_metadata.serialization_format@
                        != "cdr"@);
                }
                return Err(BagError::UnsupportedSerializationFormat { format: f.clone() });
            }
            i = i + 1;
        }
        Ok(())
    }

    /// The manifest's record of the bag.
    pub fn info(&self) -> (r: &BagFileInformation)
        ensures
            r == &self.rosbag2_bagfile_information,
    {
        &self.rosbag2_bagfile_information
    }

    /// The duration in nanoseconds.
    pub fn duration(&self) -> (r: u64)
        ensures
            r == self.rosbag2_bagfile_information.duration.nanoseconds,
    {
        self.rosbag2_bagfile_information.duration.nanoseconds
    }

    /// The start time in nanoseconds since the epoch.
    pub fn start_time(&self) -> (r: u64)
        ensures
            r == self.rosbag2_bagfile_information.starting_time.nanoseconds_since_epoch,
    {
        self.rosbag2_bagfile_information.starting_time.nanoseconds_since_epoch
    }

    /// The end time: start plus duration when the bag holds messages, else 0
    /// (held at the largest timestamp should the sum not fit).
    pub fn end_time(&self) -> (r: u64)
        ensures
            r == end_time_of(self.rosbag2_bagfile_information),
    {
        let info = &self.rosbag2_bagfile_information;
        if info.message_count == 0 {
            0
        } else {
            let start = info.starting_time.nanoseconds_since_epoch;
            let d = info.duration.nanoseconds;
            if d > u64::MAX - start {
                u64::MAX
            } else {
                start + d
            }
        }
    }

    /// The total message count.
    pub fn message_count(&self) -> (r: u64)
        ensures
            r == self.rosbag2_bagfile_information.message_count,
    {
        self.rosbag2_bagfile_information.message_count
    }

    /// Whether a compression format is set.
    pub fn is_compressed(&self) -> (r: bool)
        ensures
            r == (self.rosbag2_bagfile_information.compression_format@.len() != 0),
    {
        !self.rosbag2_bagfile_information.compression_format.as_str().is_empty()
    }

    /// The compression mode, when one is set.
    pub fn compression_mode(&self) -> (r: Option<&str>)
        ensures
            self.rosbag2_bagfile_information.compression_mode@.len() == 0 ==> r is None,
            self.rosbag2_bagfile_information.compression_mode@.len() != 0 ==> (r matches Some(m)
                && m@ == self.rosbag2_bagfile_information.compression_mode@),
    {
        if self.rosbag2_bagfile_information.compression_mode.as_str().is_empty() {
            None
        } else {
            Some(self.rosbag2_bagfile_information.compression_mode.as_str())
        }
    }
}

/// End time of a bag: start plus duration when it holds messages, else 0;
/// the largest timestamp when the sum does not fit.
pub open spec fn end_time_of(info: BagFileInformation) -> u64 {
    if info.message_count == 0 {
        0
    } else if info.starting_time.nanoseconds_since_epoch + info.duration.nanoseconds > u64::MAX {
        u64::MAX
    } else {
        (info.starting_time.nanoseconds_since_epoch + info.duration.nanoseconds) as u64
    }
}

} // verus!
