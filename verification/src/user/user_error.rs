//! What can go wrong with accounts.
use vstd::prelude::*;

verus! {

/// The ways in which an operation on accounts fails.
#[derive(Debug, PartialEq, Eq)]
pub enum UserError {
    /// The level is none of "0", "1", "2", "3".
    UnknownLevel(String),
    /// The password is not 4 to 16 letters, digits, `_` or `-`.
    PassWordFormatError(String),
    /// The name is shorter than 2 or longer than 20 characters.
    NameLengthError(usize),
    /// The pattern for passwords could not be compiled.
    RegexError,
    /// A stored password is not base64.
    Base64Error,
    /// A stored password does not decode to UTF-8.
    DecodeUtf8Error,
    /// The clock could not be read.
    SystemTimeError,
    /// The time does not fit the counter.
    TryFromIntError,
    /// The clock went back.
    ClockBack,
    /// The worker id is out of range.
    WorkerIdLengthError,
    /// The data center id is out of range.
    DataCenterLengthError,
    /// No account has this name.
    UserNotFound(String),
    /// The password is not the account's.
    WrongPassWord,
    /// An account has this name already.
    UserNameExists(String),
    /// The table of accounts is full.
    UserLimit,
}

pub type Result<T> = std::result::Result<T, UserError>;

} // verus!
