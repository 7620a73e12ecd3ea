//! The wire protocol: frames and the messages they carry.
//!
//! Every message travels as a frame: the length of its body in eight
//! bytes, most significant first, and then the body.  A body is the
//! layout of one message: an enumeration starts with its four-byte tag,
//! least significant byte first, and fields follow in their order.
use vstd::prelude::*;
use vstd::utf8::*;
use crate::error::RorError;
use crate::store::bytes::{
    be64, from_be64, from_le32, get_be64, get_le32, le32, lemma_be64_round_trip,
    lemma_le32_round_trip, put_be64, put_le32,
};
use crate::store::value::{
    Value, ValueView, encodable, get_text, lemma_parse_text_bounds, lemma_parse_value_bounds,
    lemma_text_round_trip, lemma_value_round_trip, parse_text, parse_value, put_text, text_bytes,
    value_bytes,
};
use crate::text::append_bytes;

verus! {

/// Width in bytes of the length that starts a frame.
pub const USIZE_SIZE: usize = 8;

/// The frame that carries `body`.
pub open spec fn frame(body: Seq<u8>) -> Seq<u8> {
    be64(body.len() as u64) + body
}

/// The body that `b` carries, where `b` is exactly one frame.
pub open spec fn parse_frame(b: Seq<u8>) -> Option<Seq<u8>> {
    if b.len() >= 8 && from_be64(b.subrange(0, 8)) == b.len() - 8 {
        Some(b.subrange(8, b.len() as int))
    } else {
        None
    }
}

/// Unframing a frame gives its body.
pub proof fn lemma_frame_round_trip(body: Seq<u8>)
    requires
        body.len() <= u64::MAX,
    ensures
        parse_frame(frame(body)) == Some(body),
{
    lemma_be64_round_trip(body.len() as u64);
    let b = frame(body);
    assert(b.subrange(0, 8) =~= be64(body.len() as u64));
    assert(b.subrange(8, b.len() as int) =~= body);
}

/// The length of the body that a frame's first eight bytes announce.
pub fn frame_size(prefix: &[u8; USIZE_SIZE]) -> (size: u64)
    ensures
        size == from_be64(prefix@),
{
    let bytes = vstd::array::array_as_slice(prefix);
    assert(bytes@.subrange(0, 8) =~= bytes@);
    get_be64(bytes, 0)
}

/// Three texts in a row.
pub open spec fn texts_bytes(a: Seq<char>, b: Seq<char>, c: Seq<char>) -> Seq<u8> {
    text_bytes(a) + text_bytes(b) + text_bytes(c)
}

/// What the front of `b` holds as three texts in a row, and the bytes they
/// take together.
pub open spec fn parse_texts(b: Seq<u8>) -> Option<(Seq<char>, Seq<char>, Seq<char>, nat)> {
    match parse_text(b) {
        Some((first, u1)) => if u1 <= b.len() {
            let b1 = b.subrange(u1 as int, b.len() as int);
            match parse_text(b1) {
                Some((second, u2)) => if u2 <= b1.len() {
                    match parse_text(b1.subrange(u2 as int, b1.len() as int)) {
                        Some((third, u3)) => Some((first, second, third, u1 + u2 + u3)),
                        None => None,
                    }
                } else {
                    None
                },
                None => None,
            }
        } else {
            None
        },
        None => None,
    }
}

/// Parsing three texts that were laid out gives them back.
pub proof fn lemma_texts_round_trip(a: Seq<char>, b: Seq<char>, c: Seq<char>, rest: Seq<u8>)
    requires
        encode_utf8(a).len() <= u64::MAX,
        encode_utf8(b).len() <= u64::MAX,
        encode_utf8(c).len() <= u64::MAX,
    ensures
        parse_texts(texts_bytes(a, b, c) + rest) == Some((a, b, c, texts_bytes(a, b, c).len())),
{
    let all = texts_bytes(a, b, c) + rest;
    let after_a = text_bytes(b) + text_bytes(c) + rest;
    let after_b = text_bytes(c) + rest;
    assert(all =~= text_bytes(a) + after_a);
    lemma_text_round_trip(a, after_a);
    let b1 = all.subrange(text_bytes(a).len() as int, all.len() as int);
    assert(b1 =~= after_a);
    assert(after_a =~= text_bytes(b) + after_b);
    lemma_text_round_trip(b, after_b);
    assert(b1.subrange(text_bytes(b).len() as int, b1.len() as int) =~= after_b);
    lemma_text_round_trip(c, rest);
}

/// Appends three texts in a row.
fn put_texts(buf: &mut Vec<u8>, a: &str, b: &str, c: &str)
    ensures
        final(buf)@ == old(buf)@ + texts_bytes(a@, b@, c@),
        encode_utf8(a@).len() <= u64::MAX,
        encode_utf8(b@).len() <= u64::MAX,
        encode_utf8(c@).len() <= u64::MAX,
{
    let ghost start = buf@;
    put_text(buf, a);
    put_text(buf, b);
    put_text(buf, c);
    assert(buf@ =~= start + texts_bytes(a@, b@, c@));
}

/// Reads three texts in a row from `pos`.
fn get_texts(bytes: &[u8], pos: usize) -> (r: Option<(String, String, String, usize)>)
    requires
        pos <= bytes@.len(),
    ensures
        match parse_texts(bytes@.subrange(pos as int, bytes@.len() as int)) {
            Some((a, b, c, used)) => r matches Some((x, y, z, next)) && x@ == a && y@ == b && z@
                == c && next == pos + used && next <= bytes@.len(),
            None => r is None,
        },
{
    let ghost all = bytes@.subrange(pos as int, bytes@.len() as int);
    proof {
        lemma_parse_text_bounds(all);
    }
    let (first, p1) = match get_text(bytes, pos) {
        Some(x) => x,
        None => {
            return None;
        },
    };
    let ghost b1 = all.subrange(p1 - pos, all.len() as int);
    assert(b1 =~= bytes@.subrange(p1 as int, bytes@.len() as int));
    proof {
        lemma_parse_text_bounds(b1);
    }
    let (second, p2) = match get_text(bytes, p1) {
        Some(x) => x,
        None => {
            return None;
        },
    };
    assert(b1.subrange(p2 - p1, b1.len() as int) =~= bytes@.subrange(
        p2 as int,
        bytes@.len() as int,
    ));
    let (third, p3) = match get_text(bytes, p2) {
        Some(x) => x,
        None => {
            return None;
        },
    };
    Some((first, second, third, p3))
}

/// What a message type needs to travel in a frame.
pub trait Wire: Sized {
    /// The mathematical content of a message.
    type Content;

    /// The content of this message.
    spec fn content(&self) -> Self::Content;

    /// The body that carries a message.
    spec fn layout(m: Self::Content) -> Seq<u8>;

    /// The message that a body carries as a whole.
    spec fn parse(b: Seq<u8>) -> Option<Self::Content>;

    /// Whether every length inside the message fits the bytes it is
    /// written in; this holds of every message that exists in memory.
    spec fn sendable(m: Self::Content) -> bool;

    /// Parsing the body of a message gives the message back.
    proof fn lemma_round_trip(m: Self::Content)
        requires
            Self::sendable(m),
        ensures
            Self::parse(Self::layout(m)) == Some(m),
    ;

    /// The body that carries this message.
    fn to_bytes(&self) -> (out: Vec<u8>)
        ensures
            out@ == Self::layout(self.content()),
            Self::sendable(self.content()),
    ;

    /// The message that `bytes` carries as a whole, if there is one.
    fn from_bytes(bytes: &[u8]) -> (r: Option<Self>)
        ensures
            match Self::parse(bytes@) {
                Some(m) => r matches Some(message) && message.content() == m,
                None => r is None,
            },
    ;
}

/// The first message of a connection: which store, and who asks.
#[derive(Debug, PartialEq, Eq)]
pub struct ConnectRequest {
    pub db_path: String,
    pub user_name: String,
    pub password: String,
}

/// The content of a [`ConnectRequest`].
pub struct ConnectRequestView {
    pub db_path: Seq<char>,
    pub user_name: Seq<char>,
    pub password: Seq<char>,
}

/// Why a handshake was refused.
#[derive(Debug, PartialEq, Eq, Clone, Copy, Structural)]
pub enum ConnectError {
    /// The handshake could not be decoded.
    RequestError,
    /// No account has the name.
    UserNotFound,
    /// The password is not the account's.
    PasswordError,
    /// The file is there but is no store.
    OpenFileError,
    /// The path leads to no valid location.
    PathError,
    /// Anything else went wrong inside the server.
    ServerError,
}

/// The answer to a handshake.
#[derive(Debug, PartialEq, Eq, Clone, Copy, Structural)]
pub enum ConnectReply {
    Success,
    Error(ConnectError),
}

/// What a client asks of a session.
#[derive(Debug, PartialEq)]
pub enum OperateRequest {
    Open { path: String },
    Get { key: String },
    Add { key: String, value: Value },
    Delete { key: String },
    CreateUser { name: String, password: String, level: String },
    DeleteUser { name: String },
    GetType { key: String },
    Compact,
    Quit,
}

/// The content of an [`OperateRequest`].
pub enum OperateRequestView {
    Open { path: Seq<char> },
    Get { key: Seq<char> },
    Add { key: Seq<char>, value: ValueView },
    Delete { key: Seq<char> },
    CreateUser { name: Seq<char>, password: Seq<char>, level: Seq<char> },
    DeleteUser { name: Seq<char> },
    GetType { key: Seq<char> },
    Compact,
    Quit,
}

/// What a session answers.
#[derive(Debug, PartialEq)]
pub enum OperateResult {
    Found(Value),
    Type(String),
    Success,
    PermissionDenied,
    KeyNotFound,
    Failure,
}

/// The content of an [`OperateResult`].
pub enum OperateResultView {
    Found(ValueView),
    Type(Seq<char>),
    Success,
    PermissionDenied,
    KeyNotFound,
    Failure,
}

impl View for ConnectRequest {
    type V = ConnectRequestView;

    open spec fn view(&self) -> ConnectRequestView {
        ConnectRequestView {
            db_path: self.db_path@,
            user_name: self.user_name@,
            password: self.password@,
        }
    }
}

impl View for OperateRequest {
    type V = OperateRequestView;

    open spec fn view(&self) -> OperateRequestView {
        match self {
            OperateRequest::Open { path } => OperateRequestView::Open { path: path@ },
            OperateRequest::Get { key } => OperateRequestView::Get { key: key@ },
            OperateRequest::Add { key, value } => OperateRequestView::Add {
                key: key@,
                value: value@,
            },
            OperateRequest::Delete { key } => OperateRequestView::Delete { key: key@ },
            OperateRequest::CreateUser { name, password, level } => OperateRequestView::CreateUser {
                name: name@,
                password: password@,
                level: level@,
            },
            OperateRequest::DeleteUser { name } => OperateRequestView::DeleteUser { name: name@ },
            OperateRequest::GetType { key } => OperateRequestView::GetType { key: key@ },
            OperateRequest::Compact => OperateRequestView::Compact,
            OperateRequest::Quit => OperateRequestView::Quit,
        }
    }
}

impl View for OperateResult {
    type V = OperateResultView;

    open spec fn view(&self) -> OperateResultView {
        match self {
            OperateResult::Found(value) => OperateResultView::Found(value@),
            OperateResult::Type(name) => OperateResultView::Type(name@),
            OperateResult::Success => OperateResultView::Success,
            OperateResult::PermissionDenied => OperateResultView::PermissionDenied,
            OperateResult::KeyNotFound => OperateResultView::KeyNotFound,
            OperateResult::Failure => OperateResultView::Failure,
        }
    }
}

impl Clone for OperateRequest {
    fn clone(&self) -> (copy: OperateRequest)
        ensures
            copy@ == self@,
    {
        match self {
            OperateRequest::Open { path } => OperateRequest::Open { path: path.clone() },
            OperateRequest::Get { key } => OperateRequest::Get { key: key.clone() },
            OperateRequest::Add { key, value } => OperateRequest::Add {
                key: key.clone(),
                value: value.duplicate(),
            },
            OperateRequest::Delete { key } => OperateRequest::Delete { key: key.clone() },
            OperateRequest::CreateUser { name, password, level } => OperateRequest::CreateUser {
                name: name.clone(),
                password: password.clone(),
                level: level.clone(),
            },
            OperateRequest::DeleteUser { name } => OperateRequest::DeleteUser { name: name.clone() },
            OperateRequest::GetType { key } => OperateRequest::GetType { key: key.clone() },
            OperateRequest::Compact => OperateRequest::Compact,
            OperateRequest::Quit => OperateRequest::Quit,
        }
    }
}

/// The tag of each reason for refusing a handshake.
pub open spec fn connect_error_tag(e: ConnectError) -> u32 {
    match e {
        ConnectError::RequestError => 0,
        ConnectError::UserNotFound => 1,
        ConnectError::PasswordError => 2,
        ConnectError::OpenFileError => 3,
        ConnectError::PathError => 4,
        ConnectError::ServerError => 5,
    }
}

/// The reason with the given tag.
pub open spec fn connect_error_of(tag: u32) -> Option<ConnectError> {
    if tag == 0 {
        Some(ConnectError::RequestError)
    } else if tag == 1 {
        Some(ConnectError::UserNotFound)
    } else if tag == 2 {
        Some(ConnectError::PasswordError)
    } else if tag == 3 {
        Some(ConnectError::OpenFileError)
    } else if tag == 4 {
        Some(ConnectError::PathError)
    } else if tag == 5 {
        Some(ConnectError::ServerError)
    } else {
        None
    }
}

impl Wire for ConnectRequest {
    type Content = ConnectRequestView;

    open spec fn content(&self) -> ConnectRequestView {
        self@
    }

    open spec fn layout(m: ConnectRequestView) -> Seq<u8> {
        texts_bytes(m.db_path, m.user_name, m.password)
    }

    open spec fn parse(b: Seq<u8>) -> Option<ConnectRequestView> {
        match parse_texts(b) {
            Some((db_path, user_name, password, used)) => if used == b.len() {
                Some(ConnectRequestView { db_path, user_name, password })
            } else {
                None
            },
            None => None,
        }
    }

    open spec fn sendable(m: ConnectRequestView) -> bool {
        &&& encode_utf8(m.db_path).len() <= u64::MAX
        &&& encode_utf8(m.user_name).len() <= u64::MAX
        &&& encode_utf8(m.password).len() <= u64::MAX
    }

    proof fn lemma_round_trip(m: ConnectRequestView) {
        lemma_texts_round_trip(m.db_path, m.user_name, m.password, Seq::<u8>::empty());
        assert(Self::layout(m) + Seq::<u8>::empty() =~= Self::layout(m));
    }

    fn to_bytes(&self) -> (out: Vec<u8>) {
        let mut out: Vec<u8> = Vec::new();
        put_texts(&mut out, self.db_path.as_str(), self.user_name.as_str(), self.password.as_str());
        assert(out@ =~= Self::layout(self.content()));
        out
    }

    fn from_bytes(bytes: &[u8]) -> (r: Option<Self>) {
        assert(bytes@.subrange(0, bytes@.len() as int) =~= bytes@);
        match get_texts(bytes, 0) {
            Some((db_path, user_name, password, next)) => if next == bytes.len() {
                Some(ConnectRequest { db_path, user_name, password })
            } else {
                None
            },
            None => None,
        }
    }
}

impl Wire for ConnectReply {
    type Content = ConnectReply;

    open spec fn content(&self) -> ConnectReply {
        *self
    }

    open spec fn layout(m: ConnectReply) -> Seq<u8> {
        match m {
            ConnectReply::Success => le32(0),
            ConnectReply::Error(e) => le32(1) + le32(connect_error_tag(e)),
        }
    }

    open spec fn parse(b: Seq<u8>) -> Option<ConnectReply> {
        if b.len() == 4 && from_le32(b) == 0 {
            Some(ConnectReply::Success)
        } else if b.len() == 8 && from_le32(b.subrange(0, 4)) == 1 {
            match connect_error_of(from_le32(b.subrange(4, 8))) {
                Some(e) => Some(ConnectReply::Error(e)),
                None => None,
            }
        } else {
            None
        }
    }

    open spec fn sendable(m: ConnectReply) -> bool {
        true
    }

    proof fn lemma_round_trip(m: ConnectReply) {
        let b = Self::layout(m);
        lemma_le32_round_trip(0);
        lemma_le32_round_trip(1);
        match m {
            ConnectReply::Success => {},
            ConnectReply::Error(e) => {
                lemma_le32_round_trip(connect_error_tag(e));
                assert(b.subrange(0, 4) =~= le32(1));
                assert(b.subrange(4, 8) =~= le32(connect_error_tag(e)));
            },
        }
    }

    fn to_bytes(&self) -> (out: Vec<u8>) {
        let mut out: Vec<u8> = Vec::new();
        match self {
            ConnectReply::Success => {
                put_le32(&mut out, 0);
            },
            ConnectReply::Error(e) => {
                put_le32(&mut out, 1);
                put_le32(
                    &mut out,
                    match e {
                        ConnectError::RequestError => 0,
                        ConnectError::UserNotFound => 1,
                        ConnectError::PasswordError => 2,
                        ConnectError::OpenFileError => 3,
                        ConnectError::PathError => 4,
                        ConnectError::ServerError => 5,
                    },
                );
            },
        }
        assert(out@ =~= Self::layout(self.content()));
        out
    }

    fn from_bytes(bytes: &[u8]) -> (r: Option<Self>) {
        let len = bytes.len();
        if len == 4 {
            assert(bytes@.subrange(0, 4) =~= bytes@);
            if get_le32(bytes, 0) == 0 {
                Some(ConnectReply::Success)
            } else {
                None
            }
        } else if len == 8 {
            if get_le32(bytes, 0) != 1 {
                return None;
            }
            let tag = get_le32(bytes, 4);
            if tag == 0 {
                Some(ConnectReply::Error(ConnectError::RequestError))
            } else if tag == 1 {
                Some(ConnectReply::Error(ConnectError::UserNotFound))
            } else if tag == 2 {
                Some(ConnectReply::Error(ConnectError::PasswordError))
            } else if tag == 3 {
                Some(ConnectReply::Error(ConnectError::OpenFileError))
            } else if tag == 4 {
                Some(ConnectReply::Error(ConnectError::PathError))
            } else if tag == 5 {
                Some(ConnectReply::Error(ConnectError::ServerError))
            } else {
                None
            }
        } else {
            None
        }
    }
}

/// The tag of each kind of request.
pub open spec fn request_tag(m: OperateRequestView) -> u32 {
    match m {
        OperateRequestView::Open { .. } => 0,
        OperateRequestView::Get { .. } => 1,
        OperateRequestView::Add { .. } => 2,
        OperateRequestView::Delete { .. } => 3,
        OperateRequestView::CreateUser { .. } => 4,
        OperateRequestView::DeleteUser { .. } => 5,
        OperateRequestView::GetType { .. } => 6,
        OperateRequestView::Compact => 7,
        OperateRequestView::Quit => 8,
    }
}

/// What follows the tag of a request.
pub open spec fn request_payload(m: OperateRequestView) -> Seq<u8> {
    match m {
        OperateRequestView::Open { path } => text_bytes(path),
        OperateRequestView::Get { key } => text_bytes(key),
        OperateRequestView::Add { key, value } => text_bytes(key) + value_bytes(value),
        OperateRequestView::Delete { key } => text_bytes(key),
        OperateRequestView::CreateUser { name, password, level } => texts_bytes(
            name,
            password,
            level,
        ),
        OperateRequestView::DeleteUser { name } => text_bytes(name),
        OperateRequestView::GetType { key } => text_bytes(key),
        OperateRequestView::Compact => Seq::empty(),
        OperateRequestView::Quit => Seq::empty(),
    }
}

/// The one text that is all of `p`.
pub open spec fn parse_only_text(p: Seq<u8>) -> Option<Seq<char>> {
    match parse_text(p) {
        Some((s, used)) => if used == p.len() {
            Some(s)
        } else {
            None
        },
        None => None,
    }
}

/// The request with the given tag that `p` carries as a whole.
pub open spec fn parse_request_payload(tag: u32, p: Seq<u8>) -> Option<OperateRequestView> {
    if tag == 0 {
        match parse_only_text(p) {
            Some(path) => Some(OperateRequestView::Open { path }),
            None => None,
        }
    } else if tag == 1 {
        match parse_only_text(p) {
            Some(key) => Some(OperateRequestView::Get { key }),
            None => None,
        }
    } else if tag == 2 {
        match parse_text(p) {
            Some((key, used)) => if used <= p.len() {
                match parse_value(p.subrange(used as int, p.len() as int)) {
                    Some((value, more)) => if used + more == p.len() {
                        Some(OperateRequestView::Add { key, value })
                    } else {
                        None
                    },
                    None => None,
                }
            } else {
                None
            },
            None => None,
        }
    } else if tag == 3 {
        match parse_only_text(p) {
            Some(key) => Some(OperateRequestView::Delete { key }),
            None => None,
        }
    } else if tag == 4 {
        match parse_texts(p) {
            Some((name, password, level, used)) => if used == p.len() {
                Some(OperateRequestView::CreateUser { name, password, level })
            } else {
                None
            },
            None => None,
        }
    } else if tag == 5 {
        match parse_only_text(p) {
            Some(name) => Some(OperateRequestView::DeleteUser { name }),
            None => None,
        }
    } else if tag == 6 {
        match parse_only_text(p) {
            Some(key) => Some(OperateRequestView::GetType { key }),
            None => None,
        }
    } else if tag == 7 {
        if p.len() == 0 {
            Some(OperateRequestView::Compact)
        } else {
            None
        }
    } else if tag == 8 {
        if p.len() == 0 {
            Some(OperateRequestView::Quit)
        } else {
            None
        }
    } else {
        None
    }
}

/// Parsing a text that is followed by nothing.
pub proof fn lemma_only_text(s: Seq<char>)
    requires
        encode_utf8(s).len() <= u64::MAX,
    ensures
        parse_only_text(text_bytes(s)) == Some(s),
{
    lemma_text_round_trip(s, Seq::<u8>::empty());
    assert(text_bytes(s) + Seq::<u8>::empty() =~= text_bytes(s));
}

/// Reads the one text that is all of `bytes` from `pos` on.
fn get_only_text(bytes: &[u8], pos: usize) -> (r: Option<String>)
    requires
        pos <= bytes@.len(),
    ensures
        match parse_only_text(bytes@.subrange(pos as int, bytes@.len() as int)) {
            Some(s) => r matches Some(text) && text@ == s,
            None => r is None,
        },
{
    match get_text(bytes, pos) {
        Some((text, next)) => if next == bytes.len() {
            Some(text)
        } else {
            None
        },
        None => None,
    }
}

impl Wire for OperateRequest {
    type Content = OperateRequestView;

    open spec fn content(&self) -> OperateRequestView {
        self@
    }

    open spec fn layout(m: OperateRequestView) -> Seq<u8> {
        le32(request_tag(m)) + request_payload(m)
    }

    open spec fn parse(b: Seq<u8>) -> Option<OperateRequestView> {
        if b.len() < 4 {
            None
        } else {
            parse_request_payload(from_le32(b.subrange(0, 4)), b.subrange(4, b.len() as int))
        }
    }

    open spec fn sendable(m: OperateRequestView) -> bool {
        match m {
            OperateRequestView::Open { path } => encode_utf8(path).len() <= u64::MAX,
            OperateRequestView::Get { key } => encode_utf8(key).len() <= u64::MAX,
            OperateRequestView::Add { key, value } => encode_utf8(key).len() <= u64::MAX
                && encodable(value),
            OperateRequestView::Delete { key } => encode_utf8(key).len() <= u64::MAX,
            OperateRequestView::CreateUser { name, password, level } => encode_utf8(name).len()
                <= u64::MAX && encode_utf8(password).len() <= u64::MAX && encode_utf8(
                level,
            ).len() <= u64::MAX,
            OperateRequestView::DeleteUser { name } => encode_utf8(name).len() <= u64::MAX,
            OperateRequestView::GetType { key } => encode_utf8(key).len() <= u64::MAX,
            OperateRequestView::Compact => true,
            OperateRequestView::Quit => true,
        }
    }

    proof fn lemma_round_trip(m: OperateRequestView) {
        let b = Self::layout(m);
        let p = request_payload(m);
        lemma_le32_round_trip(request_tag(m));
        assert(b.subrange(0, 4) =~= le32(request_tag(m)));
        assert(b.subrange(4, b.len() as int) =~= p);
        match m {
            OperateRequestView::Open { path } => {
                lemma_only_text(path);
            },
            OperateRequestView::Get { key } => {
                lemma_only_text(key);
            },
            OperateRequestView::Add { key, value } => {
                lemma_text_round_trip(key, value_bytes(value));
                lemma_value_round_trip(value, Seq::<u8>::empty());
                assert(p.subrange(text_bytes(key).len() as int, p.len() as int) =~= value_bytes(
                    value,
                ));
                assert(value_bytes(value) + Seq::<u8>::empty() =~= value_bytes(value));
            },
            OperateRequestView::Delete { key } => {
                lemma_only_text(key);
            },
            OperateRequestView::CreateUser { name, password, level } => {
                lemma_texts_round_trip(name, password, level, Seq::<u8>::empty());
                assert(p + Seq::<u8>::empty() =~= p);
            },
            OperateRequestView::DeleteUser { name } => {
                lemma_only_text(name);
            },
            OperateRequestView::GetType { key } => {
                lemma_only_text(key);
            },
            OperateRequestView::Compact => {},
            OperateRequestView::Quit => {},
        }
    }

    fn to_bytes(&self) -> (out: Vec<u8>) {
        let mut out: Vec<u8> = Vec::new();
        match self {
            OperateRequest::Open { path } => {
                put_le32(&mut out, 0);
                put_text(&mut out, path.as_str());
            },
            OperateRequest::Get { key } => {
                put_le32(&mut out, 1);
                put_text(&mut out, key.as_str());
            },
            OperateRequest::Add { key, value } => {
                put_le32(&mut out, 2);
                put_text(&mut out, key.as_str());
                value.encode_into(&mut out);
            },
            OperateRequest::Delete { key } => {
                put_le32(&mut out, 3);
                put_text(&mut out, key.as_str());
            },
            OperateRequest::CreateUser { name, password, level } => {
                put_le32(&mut out, 4);
                put_texts(&mut out, name.as_str(), password.as_str(), level.as_str());
            },
            OperateRequest::DeleteUser { name } => {
                put_le32(&mut out, 5);
                put_text(&mut out, name.as_str());
            },
            OperateRequest::GetType { key } => {
                put_le32(&mut out, 6);
                put_text(&mut out, key.as_str());
            },
            OperateRequest::Compact => {
                put_le32(&mut out, 7);
            },
            OperateRequest::Quit => {
                put_le32(&mut out, 8);
            },
        }
        assert(out@ =~= Self::layout(self.content()));
        out
    }

    fn from_bytes(bytes: &[u8]) -> (r: Option<Self>) {
        let len = bytes.len();
        if len < 4 {
            return None;
        }
        let tag = get_le32(bytes, 0);
        let ghost p = bytes@.subrange(4, len as int);
        if tag == 0 {
            match get_only_text(bytes, 4) {
                Some(path) => Some(OperateRequest::Open { path }),
                None => None,
            }
        } else if tag == 1 {
            match get_only_text(bytes, 4) {
                Some(key) => Some(OperateRequest::Get { key }),
                None => None,
            }
        } else if tag == 2 {
            proof {
                lemma_parse_text_bounds(p);
            }
            let (key, next) = match get_text(bytes, 4) {
                Some(x) => x,
                None => {
                    return None;
                },
            };
            assert(p.subrange(next - 4, p.len() as int) =~= bytes@.subrange(
                next as int,
                len as int,
            ));
            match Value::decode_at(bytes, next) {
                Some((value, end)) => if end == len {
                    Some(OperateRequest::Add { key, value })
                } else {
                    None
                },
                None => None,
            }
        } else if tag == 3 {
            match get_only_text(bytes, 4) {
                Some(key) => Some(OperateRequest::Delete { key }),
                None => None,
            }
        } else if tag == 4 {
            match get_texts(bytes, 4) {
                Some((name, password, level, next)) => if next == len {
                    Some(OperateRequest::CreateUser { name, password, level })
                } else {
                    None
                },
                None => None,
            }
        } else if tag == 5 {
            match get_only_text(bytes, 4) {
                Some(name) => Some(OperateRequest::DeleteUser { name }),
                None => None,
            }
        } else if tag == 6 {
            match get_only_text(bytes, 4) {
                Some(key) => Some(OperateRequest::GetType { key }),
                None => None,
            }
        } else if tag == 7 {
            if len == 4 {
                Some(OperateRequest::Compact)
            } else {
                None
            }
        } else if tag == 8 {
            if len == 4 {
                Some(OperateRequest::Quit)
            } else {
                None
            }
        } else {
            None
        }
    }
}

/// The tag of each kind of result.
pub open spec fn result_tag(m: OperateResultView) -> u32 {
    match m {
        OperateResultView::Found(_) => 0,
        OperateResultView::Type(_) => 1,
        OperateResultView::Success => 2,
        OperateResultView::PermissionDenied => 3,
        OperateResultView::KeyNotFound => 4,
        OperateResultView::Failure => 5,
    }
}

impl Wire for OperateResult {
    type Content = OperateResultView;

    open spec fn content(&self) -> OperateResultView {
        self@
    }

    open spec fn layout(m: OperateResultView) -> Seq<u8> {
        le32(result_tag(m)) + match m {
            OperateResultView::Found(value) => value_bytes(value),
            OperateResultView::Type(name) => text_bytes(name),
            _ => Seq::empty(),
        }
    }

    open spec fn parse(b: Seq<u8>) -> Option<OperateResultView> {
        if b.len() < 4 {
            None
        } else {
            let tag = from_le32(b.subrange(0, 4));
            let p = b.subrange(4, b.len() as int);
            if tag == 0 {
                match parse_value(p) {
                    Some((value, used)) => if used == p.len() {
                        Some(OperateResultView::Found(value))
                    } else {
                        None
                    },
                    None => None,
                }
            } else if tag == 1 {
                match parse_only_text(p) {
                    Some(name) => Some(OperateResultView::Type(name)),
                    None => None,
                }
            } else if p.len() != 0 {
                None
            } else if tag == 2 {
                Some(OperateResultView::Success)
            } else if tag == 3 {
                Some(OperateResultView::PermissionDenied)
            } else if tag == 4 {
                Some(OperateResultView::KeyNotFound)
            } else if tag == 5 {
                Some(OperateResultView::Failure)
            } else {
                None
            }
        }
    }

    open spec fn sendable(m: OperateResultView) -> bool {
        match m {
            OperateResultView::Found(value) => encodable(value),
            OperateResultView::Type(name) => encode_utf8(name).len() <= u64::MAX,
            _ => true,
        }
    }

    proof fn lemma_round_trip(m: OperateResultView) {
        let b = Self::layout(m);
        lemma_le32_round_trip(result_tag(m));
        assert(b.subrange(0, 4) =~= le32(result_tag(m)));
        match m {
            OperateResultView::Found(value) => {
                lemma_value_round_trip(value, Seq::<u8>::empty());
                assert(b.subrange(4, b.len() as int) =~= value_bytes(value));
                assert(value_bytes(value) + Seq::<u8>::empty() =~= value_bytes(value));
            },
            OperateResultView::Type(name) => {
                lemma_only_text(name);
                assert(b.subrange(4, b.len() as int) =~= text_bytes(name));
            },
            _ => {
                assert(b.subrange(4, b.len() as int) =~= Seq::<u8>::empty());
            },
        }
    }

    fn to_bytes(&self) -> (out: Vec<u8>) {
        let mut out: Vec<u8> = Vec::new();
        match self {
            OperateResult::Found(value) => {
                put_le32(&mut out, 0);
                value.encode_into(&mut out);
            },
            OperateResult::Type(name) => {
                put_le32(&mut out, 1);
                put_text(&mut out, name.as_str());
            },
            OperateResult::Success => {
                put_le32(&mut out, 2);
            },
            OperateResult::PermissionDenied => {
                put_le32(&mut out, 3);
            },
            OperateResult::KeyNotFound => {
                put_le32(&mut out, 4);
            },
            OperateResult::Failure => {
                put_le32(&mut out, 5);
            },
        }
        assert(out@ =~= Self::layout(self.content()));
        out
    }

    fn from_bytes(bytes: &[u8]) -> (r: Option<Self>) {
        let len = bytes.len();
        if len < 4 {
            return None;
        }
        let tag = get_le32(bytes, 0);
        if tag == 0 {
            match Value::decode_at(bytes, 4) {
                Some((value, end)) => if end == len {
                    Some(OperateResult::Found(value))
                } else {
                    None
                },
                None => None,
            }
        } else if tag == 1 {
            match get_only_text(bytes, 4) {
                Some(name) => Some(OperateResult::Type(name)),
                None => None,
            }
        } else if len != 4 {
            None
        } else if tag == 2 {
            Some(OperateResult::Success)
        } else if tag == 3 {
            Some(OperateResult::PermissionDenied)
        } else if tag == 4 {
            Some(OperateResult::KeyNotFound)
        } else if tag == 5 {
            Some(OperateResult::Failure)
        } else {
            None
        }
    }
}

/// A message on its way into or out of a frame.
pub struct Message<T> {
    message: T,
}

impl<T: Wire> Message<T> {
    /// The message that this wraps.
    pub closed spec fn inner(&self) -> T {
        self.message
    }

    /// Wraps `message` for sending.
    pub fn new(message: T) -> (m: Self)
        ensures
            m.inner() == message,
    {
        Self { message }
    }

    /// Gives the message up.
    pub fn into_inner(self) -> (message: T)
        ensures
            message == self.inner(),
    {
        self.message
    }

    /// The frame that carries the message, and the length of its body.
    pub fn as_bytes(&self) -> (r: core::result::Result<(Vec<u8>, usize), RorError>)
        ensures
            r matches Ok((buf, body_size)) && buf@ == frame(T::layout(self.inner().content()))
                && body_size == T::layout(self.inner().content()).len() && T::sendable(
                self.inner().content(),
            ),
    {
        let body = self.message.to_bytes();
        let body_size = body.len();
        let mut buf: Vec<u8> = Vec::new();
        put_be64(&mut buf, body_size as u64);
        append_bytes(&mut buf, body.as_slice());
        assert(buf@ =~= frame(body@));
        Ok((buf, body_size))
    }

    /// The message that `bytes` carries, where `bytes` is exactly one
    /// frame whose body is exactly one message.
    pub fn from_frame(bytes: &[u8]) -> (r: Option<Self>)
        ensures
            match parse_frame(bytes@) {
                Some(body) => match T::parse(body) {
                    Some(m) => r matches Some(message) && message.inner().content() == m,
                    None => r is None,
                },
                None => r is None,
            },
    {
        let len = bytes.len();
        if len < 8 {
            return None;
        }
        let size = get_be64(bytes, 0);
        if size != (len - 8) as u64 {
            return None;
        }
        let body = vstd::slice::slice_subrange(bytes, 8, len);
        match T::from_bytes(body) {
            Some(message) => Some(Self { message }),
            None => None,
        }
    }
}

} // verus!
