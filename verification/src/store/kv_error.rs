//! What can go wrong inside the storage engine.
use vstd::prelude::*;

verus! {

/// The ways in which an operation on the store fails.
///
/// `KeyNotFound` and `EOF` are ordinary outcomes; the others say that the
/// bytes of the log are not what this library writes.
#[derive(Debug, PartialEq, Eq)]
pub enum KvError {
    /// The key has no live record.
    KeyNotFound(String),
    /// There is no record at the offset: the log ends there.
    EOF,
    /// The log ends inside a record.
    TruncatedRecord,
    /// The header's first four bytes name no operation.
    InvalidCommand,
    /// The key's bytes are not UTF-8.
    DecodeUtf8Error,
    /// The value's bytes are not the layout of one value, or a tombstone
    /// carries a value.
    InvalidValue,
    /// The sizes that an entry declares are not those of its key and value.
    SizeMismatch,
}

pub type Result<T> = std::result::Result<T, KvError>;

impl KvError {
    /// Whether this error reports damaged bytes rather than an ordinary
    /// outcome.
    pub open spec fn is_corruption(self) -> bool {
        !(self is KeyNotFound) && !(self is EOF)
    }

    /// The message of this error.
    pub open spec fn text(self) -> Seq<char> {
        match self {
            KvError::KeyNotFound(key) => "Key not found: \""@ + key@ + "\""@,
            KvError::EOF => "End Of File"@,
            KvError::TruncatedRecord => "The log ends inside a record"@,
            KvError::InvalidCommand => "Unknown operation tag in a record header"@,
            KvError::DecodeUtf8Error => "FromUtf8 Error: invalid utf-8 sequence in a key"@,
            KvError::InvalidValue => "Unable to decode the value of a record"@,
            KvError::SizeMismatch => "The sizes of an entry do not match its contents"@,
        }
    }

    /// The message of this error.
    pub fn message(&self) -> (text: String)
        ensures
            text@ == self.text(),
    {
        match self {
            KvError::KeyNotFound(key) => {
                let text = "Key not found: \"".to_owned();
                let text = text.concat(key.as_str());
                text.concat("\"")
            },
            KvError::EOF => "End Of File".to_owned(),
            KvError::TruncatedRecord => "The log ends inside a record".to_owned(),
            KvError::InvalidCommand => "Unknown operation tag in a record header".to_owned(),
            KvError::DecodeUtf8Error => "FromUtf8 Error: invalid utf-8 sequence in a key".to_owned(),
            KvError::InvalidValue => "Unable to decode the value of a record".to_owned(),
            KvError::SizeMismatch => "The sizes of an entry do not match its contents".to_owned(),
        }
    }
}

} // verus!
