//! The remote client's side of the protocol.
//!
//! The client frames what it sends and reads what comes back; whoever
//! owns the socket tells it what the socket did.  When a request could not
//! be sent the client asks for one reconnection and submits the request
//! once more, and no further.
use vstd::prelude::*;
use crate::error::RorError;
use crate::request::{
    ConnectError, ConnectReply, ConnectRequest, ConnectRequestView, Message, OperateRequest,
    OperateResult, Wire, frame,
};
use crate::user::user_error::UserError;

verus! {

/// What the socket did with a request.
#[derive(Debug, PartialEq, Eq)]
pub enum Received {
    /// The request could not be written.
    NotSent,
    /// The request was written, and the connection ended before a reply.
    NoReply,
    /// The body of the reply's frame.
    Body(Vec<u8>),
}

/// What to do after an operation.
#[derive(Debug, PartialEq)]
pub enum Recovery {
    /// The operation is over, with this outcome.
    Done(core::result::Result<OperateResult, RorError>),
    /// Reconnect, then submit this request once more.
    Reconnect(OperateRequest),
}

/// A client of one server: where it connects, and as whom.
#[derive(Debug, PartialEq, Eq)]
pub struct Client {
    pub ip: String,
    pub port: String,
    pub user_name: String,
    pub password: String,
    pub db_path: String,
}

/// What the client makes of the server's answer to its handshake.
pub open spec fn handshake_outcome(body: Seq<u8>, user_name: String) -> core::result::Result<
    (),
    RorError,
> {
    match ConnectReply::parse(body) {
        None => Err(RorError::IncompleteData),
        Some(ConnectReply::Success) => Ok(()),
        Some(ConnectReply::Error(ConnectError::UserNotFound)) => Err(
            RorError::UserError(UserError::UserNotFound(user_name)),
        ),
        Some(ConnectReply::Error(ConnectError::PasswordError)) => Err(
            RorError::UserError(UserError::WrongPassWord),
        ),
        Some(ConnectReply::Error(ConnectError::OpenFileError)) => Err(RorError::OpenFileFailed),
        Some(ConnectReply::Error(ConnectError::RequestError)) => Err(RorError::RequestError),
        Some(ConnectReply::Error(ConnectError::PathError)) => Err(RorError::PathError),
        Some(ConnectReply::Error(ConnectError::ServerError)) => Err(RorError::ServerError),
    }
}

impl Client {
    /// A client for the server at `ip` and `port`, logging in as
    /// `user_name` to the store at `db_path`.
    pub fn new(ip: String, port: String, user_name: String, password: String, db_path: String) -> (client:
        Client)
        ensures
            client == (Client { ip, port, user_name, password, db_path }),
    {
        Client { ip, port, user_name, password, db_path }
    }

    /// The address to connect to: the host, a colon, the port.
    pub fn address(&self) -> (address: String)
        ensures
            address@ == self.ip@ + ":"@ + self.port@,
    {
        let address = self.ip.clone();
        let address = address.concat(":");
        address.concat(self.port.as_str())
    }

    /// The frame that opens a connection: the handshake.
    pub fn connect(&self) -> (buf: Vec<u8>)
        ensures
            buf@ == frame(
                ConnectRequest::layout(
                    ConnectRequestView {
                        db_path: self.db_path@,
                        user_name: self.user_name@,
                        password: self.password@,
                    },
                ),
            ),
    {
        let request = ConnectRequest {
            db_path: self.db_path.clone(),
            user_name: self.user_name.clone(),
            password: self.password.clone(),
        };
        match Message::new(request).as_bytes() {
            Ok((buf, _)) => buf,
            Err(_) => Vec::new(),
        }
    }

    /// Reads the server's answer to the handshake; `body` is the body of
    /// its frame.
    pub fn connected(&self, body: &[u8]) -> (r: core::result::Result<(), RorError>)
        ensures
            r == handshake_outcome(body@, self.user_name),
    {
        match ConnectReply::from_bytes(body) {
            None => Err(RorError::IncompleteData),
            Some(ConnectReply::Success) => Ok(()),
            Some(ConnectReply::Error(ConnectError::UserNotFound)) => Err(
                RorError::UserError(UserError::UserNotFound(self.user_name.clone())),
            ),
            Some(ConnectReply::Error(ConnectError::PasswordError)) => Err(
                RorError::UserError(UserError::WrongPassWord),
            ),
            Some(ConnectReply::Error(ConnectError::OpenFileError)) => Err(RorError::OpenFileFailed),
            Some(ConnectReply::Error(ConnectError::RequestError)) => Err(RorError::RequestError),
            Some(ConnectReply::Error(ConnectError::PathError)) => Err(RorError::PathError),
            Some(ConnectReply::Error(ConnectError::ServerError)) => Err(RorError::ServerError),
        }
    }

    /// The frame that carries `request`.
    pub fn operate(&self, request: &OperateRequest) -> (buf: Vec<u8>)
        ensures
            buf@ == frame(OperateRequest::layout(request@)),
    {
        match Message::new(request.clone()).as_bytes() {
            Ok((buf, _)) => buf,
            Err(_) => Vec::new(),
        }
    }

    /// What an operation comes to, given what the socket did with
    /// `request`: a request that could not be sent is handed back as
    /// `ConnectionLost`, a missing reply is an `AbnormalConnection`, a reply
    /// that cannot be decoded is `IncompleteData`.
    pub fn operated(&self, request: OperateRequest, received: Received) -> (r:
        core::result::Result<OperateResult, RorError>)
        ensures
            match received {
                Received::NotSent => r == Err::<OperateResult, RorError>(
                    RorError::ConnectionLost(request),
                ),
                Received::NoReply => r == Err::<OperateResult, RorError>(
                    RorError::AbnormalConnection,
                ),
                Received::Body(body) => match OperateResult::parse(body@) {
                    Some(result) => r matches Ok(reply) && reply@ == result,
                    None => r == Err::<OperateResult, RorError>(RorError::IncompleteData),
                },
            },
    {
        match received {
            Received::NotSent => Err(RorError::ConnectionLost(request)),
            Received::NoReply => Err(RorError::AbnormalConnection),
            Received::Body(body) => match OperateResult::from_bytes(body.as_slice()) {
                Some(reply) => Ok(reply),
                None => Err(RorError::IncompleteData),
            },
        }
    }

    /// What follows the first attempt of an operation: a lost connection
    /// asks for one reconnection and one more submission of the same
    /// request; everything else is final.
    pub fn recover(outcome: core::result::Result<OperateResult, RorError>) -> (next: Recovery)
        ensures
            next == (match outcome {
                Err(RorError::ConnectionLost(request)) => Recovery::Reconnect(request),
                _ => Recovery::Done(outcome),
            }),
    {
        match outcome {
            Err(RorError::ConnectionLost(request)) => Recovery::Reconnect(request),
            other => Recovery::Done(other),
        }
    }
}

} // verus!
