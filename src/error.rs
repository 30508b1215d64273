//! The error taxonomy shared by the codec, the manifest model, the reader and
//! the writer.

use vstd::prelude::*;

verus! {

/// What went wrong while decoding CDR bytes.
#[derive(Clone, Copy, Debug, PartialEq, Eq, Structural)]
pub enum CodecFault {
    /// Fewer than four bytes were given for the encapsulation header.
    HeaderTooShort,
    /// The endianness flag of the header is neither 0 nor 1.
    InvalidEndianness,
    /// The buffer ends before the value (after its alignment padding).
    Truncated,
    /// A string's declared length runs past the end of the buffer.
    StringTruncated,
    /// A string's bytes are not valid UTF-8.
    InvalidUtf8,
}

/// Every failure that the library reports.
#[derive(Debug)]
pub enum BagError {
    Io { message: String },
    YamlParse { message: String },
    Database { message: String },
    Compression { message: String },
    BagNotFound { path: String },
    BagAlreadyExists { path: String },
    MetadataNotFound { path: String },
    StorageFileNotFound { path: String },
    UnsupportedVersion { version: u32 },
    UnsupportedStorageFormat { format: String },
    UnsupportedCompressionFormat { format: String },
    UnsupportedSerializationFormat { format: String },
    BagNotOpen,
    BagAlreadyOpen,
    InvalidMessageData { reason: String },
    CdrDeserialization { fault: CodecFault, position: usize, data_length: usize },
    MessageTypeNotFound { message_type: String },
    SchemaValidation { reason: String },
    ConnectionNotFound { topic: String },
    ConnectionAlreadyExists { topic: String },
    InvalidQosProfile { reason: String },
    Writer { message: String },
    Generic { message: String },
}

impl BagError {
    pub fn generic(message: String) -> (r: BagError)
        ensures
            r == (BagError::Generic { message }),
    {
        BagError::Generic { message }
    }

    pub fn writer(message: String) -> (r: BagError)
        ensures
            r == (BagError::Writer { message }),
    {
        BagError::Writer { message }
    }

    pub fn compression(message: String) -> (r: BagError)
        ensures
            r == (BagError::Compression { message }),
    {
        BagError::Compression { message }
    }

    pub fn invalid_message_data(reason: String) -> (r: BagError)
        ensures
            r == (BagError::InvalidMessageData { reason }),
    {
        BagError::InvalidMessageData { reason }
    }

    pub fn cdr_deserialization(fault: CodecFault, position: usize, data_length: usize) -> (r:
        BagError)
        ensures
            r == (BagError::CdrDeserialization { fault, position, data_length }),
    {
        BagError::CdrDeserialization { fault, position, data_length }
    }

    pub fn message_type_not_found(message_type: String) -> (r: BagError)
        ensures
            r == (BagError::MessageTypeNotFound { message_type }),
    {
        BagError::MessageTypeNotFound { message_type }
    }

    pub fn schema_validation(reason: String) -> (r: BagError)
        ensures
            r == (BagError::SchemaValidation { reason }),
    {
        BagError::SchemaValidation { reason }
    }

    pub fn connection_not_found(topic: String) -> (r: BagError)
        ensures
            r == (BagError::ConnectionNotFound { topic }),
    {
        BagError::ConnectionNotFound { topic }
    }

    pub fn connection_already_exists(topic: String) -> (r: BagError)
        ensures
            r == (BagError::ConnectionAlreadyExists { topic }),
    {
        BagError::ConnectionAlreadyExists { topic }
    }

    pub fn invalid_qos_profile(reason: String) -> (r: BagError)
        ensures
            r == (BagError::InvalidQosProfile { reason }),
    {
        BagError::InvalidQosProfile { reason }
    }
}

} // verus!
