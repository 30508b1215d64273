//! Reading and writing of robotics log bags: a CDR codec, the bag manifest
//! model, and the reader and writer state machines that sit between a caller
//! and a storage backend.

pub mod cdr;
pub mod chunked;
pub mod error;
pub mod messages;
pub mod metadata;
pub mod reader;
pub mod types;
pub mod writer;

pub use error::BagError;
pub use metadata::BagMetadata;
pub use reader::Reader;
pub use types::{CompressionFormat, CompressionMode, Connection, Message, StoragePlugin, TopicInfo};
pub use writer::Writer;
