use vstd::prelude::*;

use crate::pb::{STATUS_BAD_REQUEST, STATUS_INTERNAL, STATUS_NOT_FOUND};
use vstd::string::StringExecFns;

verus! {

/// The failures of the store, the codec and the service.
#[derive(Debug)]
pub enum KvError {
    NotFound(String, String),
    InvalidCommand(String),
    ConvertError(String, String),
    StorageError(String, String, String, String),
    EncodeError,
    DecodeError,
    SledError(String),
    RocksDBError(String),
    CertifcateParseError(String, String),
    FrameError,
    TLSError,
    IoError,
    Internal(String),
}

/// The message of a read of an absent key.
pub open spec fn not_found_message(table: Seq<char>, key: Seq<char>) -> Seq<char> {
    "Not found for table: "@ + table + ", key: "@ + key
}

/// The message of a command that cannot be parsed.
pub open spec fn invalid_command_message(c: Seq<char>) -> Seq<char> {
    "Cannot parse command: `"@ + c + "`"@
}

/// The message of an internal failure.
pub open spec fn internal_message(m: Seq<char>) -> Seq<char> {
    "Internal error: "@ + m
}

impl KvError {
    /// The response status of an error: 404 for an absent key, 400 for an
    /// invalid command, 500 for all else.
    pub open spec fn status(&self) -> u32 {
        match self {
            KvError::NotFound(..) => STATUS_NOT_FOUND,
            KvError::InvalidCommand(..) => STATUS_BAD_REQUEST,
            _ => STATUS_INTERNAL,
        }
    }

    /// The human-readable message of an error.
    pub open spec fn message(&self) -> Seq<char> {
        match self {
            KvError::NotFound(t, k) => not_found_message(t@, k@),
            KvError::InvalidCommand(c) => invalid_command_message(c@),
            KvError::ConvertError(v, t) => "Cannot convert value "@ + v@ + " to "@ + t@,
            KvError::StorageError(c, t, k, e) => "Cannot process command "@ + c@ + " with table: "@
                + t@ + ", key: "@ + k@ + ". Error: "@ + e@,
            KvError::EncodeError => "Failed to encode protobuf message"@,
            KvError::DecodeError => "Failed to decode protobuf message"@,
            KvError::SledError(_) => "Failed to access sled db"@,
            KvError::RocksDBError(_) => "Failed to access rocksdb"@,
            KvError::CertifcateParseError(a, b) => "Failed to parse certifcate: "@ + a@ + ", "@
                + b@,
            KvError::FrameError => "Frame is larger than max size!"@,
            KvError::TLSError => "TLS Error"@,
            KvError::IoError => "I/O Error"@,
            KvError::Internal(m) => internal_message(m@),
        }
    }

    /// The response status of this error.
    pub fn status_code(&self) -> (r: u32)
        ensures
            r == self.status(),
    {
        match self {
            KvError::NotFound(..) => STATUS_NOT_FOUND,
            KvError::InvalidCommand(..) => STATUS_BAD_REQUEST,
            _ => STATUS_INTERNAL,
        }
    }

    /// The message of this error, as a `String`.
    pub fn to_message(&self) -> (r: String)
        ensures
            r@ == self.message(),
    {
        let mut s = String::new();
        match self {
            KvError::NotFound(t, k) => {
                s.append("Not found for table: ");
                s.append(t.as_str());
                s.append(", key: ");
                s.append(k.as_str());
            },
            KvError::InvalidCommand(c) => {
                s.append("Cannot parse command: `");
                s.append(c.as_str());
                s.append("`");
            },
            KvError::ConvertError(v, t) => {
                s.append("Cannot convert value ");
                s.append(v.as_str());
                s.append(" to ");
                s.append(t.as_str());
            },
            KvError::StorageError(c, t, k, e) => {
                s.append("Cannot process command ");
                s.append(c.as_str());
                s.append(" with table: ");
                s.append(t.as_str());
                s.append(", key: ");
                s.append(k.as_str());
                s.append(". Error: ");
                s.append(e.as_str());
            },
            KvError::EncodeError => s.append("Failed to encode protobuf message"),
            KvError::DecodeError => s.append("Failed to decode protobuf message"),
            KvError::SledError(_) => s.append("Failed to access sled db"),
            KvError::RocksDBError(_) => s.append("Failed to access rocksdb"),
            KvError::CertifcateParseError(a, b) => {
                s.append("Failed to parse certifcate: ");
                s.append(a.as_str());
                s.append(", ");
                s.append(b.as_str());
            },
            KvError::FrameError => s.append("Frame is larger than max size!"),
            KvError::TLSError => s.append("TLS Error"),
            KvError::IoError => s.append("I/O Error"),
            KvError::Internal(m) => {
                s.append("Internal error: ");
                s.append(m.as_str());
            },
        }
        s
    }
}

} // verus!
