//! The errors that cross the library's parts.
use vstd::prelude::*;
use crate::cmd::cmd_error::CmdError;
use crate::cmd::statement::ValueType;
use crate::request::OperateRequest;
use crate::store::kv_error::KvError;
use crate::user::user_error::UserError;

verus! {

/// What an operation of a session, a client or a front end fails with.
#[derive(Debug, PartialEq)]
pub enum RorError {
    /// The storage engine failed.
    KvError(KvError),
    /// An operation on accounts failed.
    UserError(UserError),
    /// The command line is no statement.
    CmdError(CmdError),
    /// A written value cannot be given the type that was asked for.
    ConvertError(String, ValueType),
    /// The data file is not there.
    DataFileNotFound(String),
    /// A command got the wrong arguments.
    ParameterError(String),
    /// A type name is not known.
    UnknownType(String),
    /// A command name is not known.
    UnknownCommand(String),
    /// The client asked to end the session.
    Disconnect,
    /// The server could not open the data file.
    OpenFileFailed,
    /// The server could not decode the handshake.
    RequestError,
    /// The server could not resolve the path.
    PathError,
    /// The server met an unexpected error.
    ServerError,
    /// The request could not be sent; it is handed back for one retry.
    ConnectionLost(OperateRequest),
    /// The reply did not arrive.
    AbnormalConnection,
    /// The reply could not be decoded.
    IncompleteData,
}

pub type Result<T> = std::result::Result<T, RorError>;

} // verus!
