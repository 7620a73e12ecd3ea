//! The interactive front ends, without their terminal.
//!
//! A front end reads a line, parses it and either works on a store of its
//! own or sends a request to a server.  What is decided here is what a
//! line means; reading, printing, opening files and talking to sockets is
//! done by whoever runs the front end.
use vstd::prelude::*;
use crate::cmd::cmd_error::{CmdError, CmdErrorView};
use crate::cmd::lexer::lex_spec;
use crate::cmd::parser::{Parser, statement};
use crate::cmd::statement::{
    List, Statement, StatementView, UserCmd, UserCmdView, ValueP, ValuePView, ValueType,
    lemma_written_views, written_text, written_views,
};
use crate::error::RorError;
use crate::request::{OperateRequest, OperateRequestView, OperateResult, OperateResultView};
use crate::store::kv::DataStore;
use crate::store::kv_error::KvError;
use crate::store::log::parse_log;
use crate::store::record::Entry;
use crate::store::value::{Value, ValueView, lemma_view, lemma_view_items, view_items};
use crate::text::{chars_of, parse_i32, parse_i64, parsed_i32, parsed_i64};
use crate::user::user::{
    User, first_named, has_name, lemma_registrable, password_pattern, regex_match, registrable,
    table_view,
};

verus! {

/// Where a remote front end connects, and as whom.
#[derive(Debug, PartialEq, Eq)]
pub struct ConnectionInfo {
    pub ip: String,
    pub port: String,
    pub user_name: String,
    pub password: String,
    pub db_path: String,
}

impl Clone for ConnectionInfo {
    fn clone(&self) -> (copy: ConnectionInfo)
        ensures
            copy == *self,
    {
        ConnectionInfo {
            ip: self.ip.clone(),
            port: self.port.clone(),
            user_name: self.user_name.clone(),
            password: self.password.clone(),
            db_path: self.db_path.clone(),
        }
    }
}

/// The value that a written scalar is under a scalar type, or nothing
/// where it cannot be given the type.  No written value is a `Bool`.
pub open spec fn typed_scalar(text: Seq<char>, t: ValueType) -> Option<ValueView> {
    match t {
        ValueType::Null => Some(ValueView::Null),
        ValueType::Int32 => match parsed_i32(text) {
            Some(x) => Some(ValueView::Int32(x)),
            None => None,
        },
        ValueType::Int64 => match parsed_i64(text) {
            Some(x) => Some(ValueView::Int64(x)),
            None => None,
        },
        ValueType::Char => if text.len() == 1 {
            Some(ValueView::Char(text[0]))
        } else {
            None
        },
        ValueType::String => Some(ValueView::String(text)),
        _ => None,
    }
}

/// The value that a written value is under a type, or nothing where it
/// cannot be given the type.
pub open spec fn typed(v: ValuePView, t: ValueType) -> Option<ValueView>
    decreases v,
{
    match t {
        ValueType::Array(inner) => match v {
            ValuePView::Array(items) => match typed_items(items, *inner) {
                Some(values) => Some(ValueView::Array(values)),
                None => None,
            },
            _ => None,
        },
        _ => typed_scalar(written_text(v), t),
    }
}

/// The values that a row of written values is under a type, or nothing
/// where one of them cannot be given the type.
pub open spec fn typed_items(items: Seq<ValuePView>, t: ValueType) -> Option<Seq<ValueView>>
    decreases items,
{
    if items.len() == 0 {
        Some(Seq::empty())
    } else {
        match typed(items[0], t) {
            None => None,
            Some(first) => match typed_items(items.drop_first(), t) {
                None => None,
                Some(rest) => Some(seq![first] + rest),
            },
        }
    }
}

/// What the `ConvertError` carries where a written value cannot be given
/// a type: the text of the first written value at fault and the type that
/// it could not be given.
pub open spec fn fault(v: ValuePView, t: ValueType) -> (Seq<char>, ValueType)
    decreases v,
{
    match t {
        ValueType::Array(inner) => match v {
            ValuePView::Array(items) => fault_items(items, *inner),
            _ => (written_text(v), t),
        },
        _ => (written_text(v), t),
    }
}

/// The fault of the first value of a row that cannot be given the type.
pub open spec fn fault_items(items: Seq<ValuePView>, t: ValueType) -> (Seq<char>, ValueType)
    decreases items,
{
    if items.len() == 0 {
        (Seq::empty(), t)
    } else if typed(items[0], t) is None {
        fault(items[0], t)
    } else {
        fault_items(items.drop_first(), t)
    }
}

/// Whether `r` is the `ConvertError` that carries `payload`.
pub open spec fn fails_with(
    r: core::result::Result<Value, RorError>,
    payload: (Seq<char>, ValueType),
) -> bool {
    r matches Err(RorError::ConvertError(text, t)) && text@ == payload.0 && t == payload.1
}

/// Gives a written scalar its type, given what reading its text as a
/// number gave.
pub fn scalar_value(
    text: String,
    data_type: ValueType,
    as_i32: Option<i32>,
    as_i64: Option<i64>,
) -> (r: core::result::Result<Value, RorError>)
    requires
        !(data_type is Array),
        !data_type.floating(),
    ensures
        match data_type {
            ValueType::Null => r matches Ok(value) && value@ == ValueView::Null,
            ValueType::Int32 => match as_i32 {
                Some(x) => r matches Ok(value) && value@ == ValueView::Int32(x),
                None => r == Err::<Value, RorError>(RorError::ConvertError(text, data_type)),
            },
            ValueType::Int64 => match as_i64 {
                Some(x) => r matches Ok(value) && value@ == ValueView::Int64(x),
                None => r == Err::<Value, RorError>(RorError::ConvertError(text, data_type)),
            },
            ValueType::Char => if text@.len() == 1 {
                r matches Ok(value) && value@ == ValueView::Char(text@[0])
            } else {
                r == Err::<Value, RorError>(RorError::ConvertError(text, data_type))
            },
            ValueType::String => r matches Ok(value) && value@ == ValueView::String(text@),
            _ => r == Err::<Value, RorError>(RorError::ConvertError(text, data_type)),
        },
{
    match data_type {
        ValueType::Null => Ok(Value::Null),
        ValueType::Int32 => match as_i32 {
            Some(x) => Ok(Value::Int32(x)),
            None => Err(RorError::ConvertError(text, data_type)),
        },
        ValueType::Int64 => match as_i64 {
            Some(x) => Ok(Value::Int64(x)),
            None => Err(RorError::ConvertError(text, data_type)),
        },
        ValueType::Char => {
            let chars = chars_of(text.as_str());
            if chars.len() == 1 {
                let c = chars[0];
                assert(c == text@[0]);
                let value = Value::Char(c);
                proof {
                    lemma_view(value);
                }
                Ok(value)
            } else {
                Err(RorError::ConvertError(text, data_type))
            }
        },
        ValueType::String => Ok(Value::String(text)),
        _ => Err(RorError::ConvertError(text, data_type)),
    }
}

/// Gives a written value its type.  A value that cannot be given the type
/// is a `ConvertError`.  The floating-point types are left to the caller.
#[verifier::loop_isolation(false)]
pub fn to_value(v: ValueP, data_type: ValueType) -> (r: core::result::Result<Value, RorError>)
    requires
        !data_type.floating(),
    ensures
        match typed(v@, data_type) {
            Some(x) => r matches Ok(value) && value@ == x,
            None => fails_with(r, fault(v@, data_type)),
        },
    decreases v@,
{
    match data_type {
        ValueType::Array(include_type) => {
            match v {
                ValueP::Array(array) => {
                    let ghost items = written_views(array@, array@.len());
                    proof {
                        lemma_written_views(array@, array@.len());
                    }
                    let mut values: Vec<Value> = Vec::new();
                    let mut i: usize = 0;
                    assert(items.subrange(0, items.len() as int) =~= items);
                    while i < array.len()
                        invariant
                            i <= array@.len(),
                            items.len() == array@.len(),
                            values@.len() == i,
                            typed_items(items, *include_type) == match typed_items(
                                items.subrange(i as int, items.len() as int),
                                *include_type,
                            ) {
                                Some(rest) => Some(view_items(values@, values@.len()) + rest),
                                None => None,
                            },
                            typed_items(items, *include_type) is None ==> fault_items(
                                items,
                                *include_type,
                            ) == fault_items(
                                items.subrange(i as int, items.len() as int),
                                *include_type,
                            ),
                        decreases array@.len() - i,
                    {
                        proof {
                            lemma_view_items(values@, values@.len());
                            assert(items[i as int] == array@[i as int]@);
                        }
                        let ghost remaining = items.subrange(i as int, items.len() as int);
                        let ghost done = view_items(values@, values@.len());
                        let item = array[i].duplicate();
                        let db_value = match to_value(item, (*include_type).clone()) {
                            Ok(value) => value,
                            Err(e) => {
                                proof {
                                    assert(remaining[0] == items[i as int]);
                                }
                                return Err(e);
                            },
                        };
                        let ghost view = db_value@;
                        values.push(db_value);
                        proof {
                            lemma_view_items(values@, values@.len());
                            assert(view_items(values@, values@.len()) =~= done.push(view));
                            assert(remaining[0] == items[i as int]);
                            assert(remaining.drop_first() =~= items.subrange(
                                i + 1,
                                items.len() as int,
                            ));
                            match typed_items(remaining.drop_first(), *include_type) {
                                Some(rest) => {
                                    assert(done + (seq![view] + rest) =~= done.push(view) + rest);
                                },
                                None => {},
                            }
                        }
                        i += 1;
                    }
                    proof {
                        lemma_view_items(values@, values@.len());
                        assert(items.subrange(i as int, items.len() as int) =~= Seq::<
                            ValuePView,
                        >::empty());
                        assert(view_items(values@, values@.len()) + Seq::<ValueView>::empty()
                            =~= view_items(values@, values@.len()));
                    }
                    Ok(Value::Array(Box::new(values)))
                },
                other => Err(RorError::ConvertError(other.get_str(), ValueType::Array(include_type))),
            }
        },
        ValueType::Bool => Err(RorError::ConvertError(v.get_str(), data_type)),
        scalar => {
            let text = v.get_str();
            let as_i32 = parse_i32(text.as_str());
            let as_i64 = parse_i64(text.as_str());
            scalar_value(text, scalar, as_i32, as_i64)
        },
    }
}

/// What a remote front end sends for a statement, if it sends anything:
/// `open` and `list` are not sent.
pub open spec fn request_of(s: StatementView, value: Option<ValueView>) -> Option<
    OperateRequestView,
> {
    match s {
        StatementView::Add { key, .. } => match value {
            Some(v) => Some(OperateRequestView::Add { key, value: v }),
            None => None,
        },
        StatementView::Delete { key } => Some(OperateRequestView::Delete { key }),
        StatementView::Get { key } => Some(OperateRequestView::Get { key }),
        StatementView::Compact => Some(OperateRequestView::Compact),
        StatementView::TypeOf { key } => Some(OperateRequestView::GetType { key }),
        StatementView::Open { .. } => None,
        StatementView::List { .. } => None,
        StatementView::User { cmd } => match cmd {
            UserCmdView::Create { info } => Some(
                OperateRequestView::CreateUser {
                    name: info.name,
                    password: info.password,
                    level: info.level,
                },
            ),
            UserCmdView::Delete { name } => Some(OperateRequestView::DeleteUser { name }),
        },
        StatementView::Quit => Some(OperateRequestView::Quit),
    }
}

/// What a front end prints for a result.
pub open spec fn reply_text(result: OperateResultView) -> Seq<char> {
    match result {
        OperateResultView::Found(_) => Seq::empty(),
        OperateResultView::Type(t) => t + "\n"@,
        OperateResultView::Success => "Successfully completed the request\n"@,
        OperateResultView::PermissionDenied => "Permission Denied\n"@,
        OperateResultView::KeyNotFound => "Key not found\n"@,
        OperateResultView::Failure => "The request failed, possibly due to a server error\n"@,
    }
}

/// What a remote front end is to do with a line.
#[derive(Debug, PartialEq)]
pub enum Outgoing {
    /// Nothing: the line is empty, or its statement is not sent.
    Nothing,
    /// Send this request and print what `match_op_reply` makes of the
    /// result.
    Send(OperateRequest),
    /// Read the number of this written value, whose type is a
    /// floating-point type, and send it under this key with `Add`.
    SendFloating { key: String, value: ValueP, datatype: ValueType },
    /// Send this request, which is `Quit`, and then leave.
    Leave(OperateRequest),
}

/// The front end of a remote store.
#[derive(Debug, PartialEq, Eq)]
pub struct RemoteRepl {
    pub info: ConnectionInfo,
}

impl RemoteRepl {
    /// A front end for the server that `info` names.
    pub fn new(ip: String, port: String, user_name: String, password: String, db_path: String) -> (repl:
        RemoteRepl)
        ensures
            repl.info == (ConnectionInfo { ip, port, user_name, password, db_path }),
    {
        RemoteRepl { info: ConnectionInfo { ip, port, user_name, password, db_path } }
    }

    /// The prompt: host, colon, port, and ` > `.
    pub fn prompt(&self) -> (text: String)
        ensures
            text@ == self.info.ip@ + ":"@ + self.info.port@ + " > "@,
    {
        let text = self.info.ip.clone();
        let text = text.concat(":");
        let text = text.concat(self.info.port.as_str());
        text.concat(" > ")
    }

    /// What is to be done with the line `input`.
    pub fn match_command(&self, input: &str) -> (r: core::result::Result<Outgoing, RorError>)
        ensures
            input@ == "\n"@ ==> r == Ok::<Outgoing, RorError>(Outgoing::Nothing),
            input@ != "\n"@ ==> match statement(lex_spec(input@)) {
                Err(e) => r matches Err(RorError::CmdError(error)) && error@ == e,
                Ok(StatementView::Add { key, value, datatype }) => if datatype.floating() {
                    r matches Ok(Outgoing::SendFloating { key: k, value: v, datatype: t }) && k@
                        == key && v@ == value && t == datatype
                } else {
                    match typed(value, datatype) {
                        Some(x) => r matches Ok(Outgoing::Send(request)) && request@
                            == (OperateRequestView::Add { key, value: x }),
                        None => r matches Err(e) && e is ConvertError,
                    }
                },
                Ok(StatementView::Quit) => r matches Ok(Outgoing::Leave(request)) && request@
                    == OperateRequestView::Quit,
                Ok(s) => match request_of(s, None) {
                    Some(request) => r matches Ok(Outgoing::Send(found)) && found@ == request,
                    None => r == Ok::<Outgoing, RorError>(Outgoing::Nothing),
                },
            },
    {
        if input.to_owned() == "\n".to_owned() {
            return Ok(Outgoing::Nothing);
        }
        let mut parser = Parser::new();
        let parsed = match parser.parse(input) {
            Ok(s) => s,
            Err(e) => {
                return Err(RorError::CmdError(e));
            },
        };
        match parsed {
            Statement::Add { key, value, datatype } => {
                if datatype.is_floating() {
                    return Ok(Outgoing::SendFloating { key, value, datatype });
                }
                match to_value(value, datatype) {
                    Ok(value) => Ok(Outgoing::Send(OperateRequest::Add { key, value })),
                    Err(e) => Err(e),
                }
            },
            Statement::Delete { key } => Ok(Outgoing::Send(OperateRequest::Delete { key })),
            Statement::Get { key } => Ok(Outgoing::Send(OperateRequest::Get { key })),
            Statement::Compact => Ok(Outgoing::Send(OperateRequest::Compact)),
            Statement::TypeOf { key } => Ok(Outgoing::Send(OperateRequest::GetType { key })),
            Statement::Open { file: _ } => Ok(Outgoing::Nothing),
            Statement::List { list: _ } => Ok(Outgoing::Nothing),
            Statement::User { cmd } => match cmd {
                UserCmd::Create { info } => Ok(
                    Outgoing::Send(
                        OperateRequest::CreateUser {
                            name: info.name,
                            password: info.password,
                            level: info.level,
                        },
                    ),
                ),
                UserCmd::Delete { name } => Ok(Outgoing::Send(OperateRequest::DeleteUser { name })),
            },
            Statement::Quit => Ok(Outgoing::Leave(OperateRequest::Quit)),
        }
    }

    /// What is printed for `result`.  A value that was found is not
    /// printed.
    pub fn match_op_reply(result: &OperateResult) -> (text: String)
        ensures
            text@ == reply_text(result@),
    {
        match result {
            OperateResult::Found(_) => String::new(),
            OperateResult::Type(t) => t.clone().concat("\n"),
            OperateResult::Success => "Successfully completed the request\n".to_owned(),
            OperateResult::PermissionDenied => "Permission Denied\n".to_owned(),
            OperateResult::KeyNotFound => "Key not found\n".to_owned(),
            OperateResult::Failure => "The request failed, possibly due to a server error\n".to_owned(),
        }
    }
}

/// What a local front end did with a line, for its caller to print or to
/// carry on.
#[derive(Debug, PartialEq)]
pub enum Reply {
    /// The line was empty.
    Nothing,
    /// The store at this path is to be opened: read its file and call
    /// `opened`.
    Opening(String),
    /// The value was stored under the key.
    Added { key: String, value: ValueP },
    /// The value is of a floating-point type: read its number, then store
    /// it with `add`.
    AddFloating { key: String, value: ValueP, datatype: ValueType },
    /// The key was deleted.
    Deleted(String),
    /// The value of the key.
    Found(Value),
    /// The store was compacted.
    Compacted,
    /// The name of the type of the key's value.
    TypeName(String),
    /// The values of all keys.
    Values(Vec<Value>),
    /// The records of all keys.
    Entries(Vec<Entry>),
    /// The account was created.
    UserCreated(String),
    /// The account was deleted.
    UserDeleted(String),
    /// The user asked to leave.
    Quit,
}

/// The front end of a store that is opened locally.
pub struct LocalRepl {
    pub database: DataStore,
}

impl LocalRepl {
    /// A front end for the store whose file is at `path` and holds `bytes`.
    pub fn open(path: &str, bytes: Vec<u8>) -> (r: core::result::Result<LocalRepl, RorError>)
        ensures
            match parse_log(bytes@) {
                Ok(recs) => r matches Ok(repl) && repl.database.wf() && repl.database.records()
                    == recs && repl.database.path_view() == path@,
                Err(e) => r matches Err(RorError::KvError(error)) && error == e,
            },
    {
        match DataStore::open(path, bytes) {
            Ok(database) => Ok(LocalRepl { database }),
            Err(e) => Err(RorError::KvError(e)),
        }
    }

    /// The prompt: the path of the store and ` > `.
    pub fn prompt(&self) -> (text: String)
        ensures
            text@ == self.database.path_view() + " > "@,
    {
        let path = self.database.path();
        path.concat(" > ")
    }

    /// Carries out the line `input` on the store and on the accounts, and
    /// says what came of it.
    pub fn match_command(&mut self, input: &str, users: &mut Vec<User>, user_max: u16) -> (r:
        core::result::Result<Reply, RorError>)
        requires
            old(self).database.wf(),
        ensures
            final(self).database.wf(),
            input@ == "\n"@ ==> r == Ok::<Reply, RorError>(Reply::Nothing) && *final(self) == *old(self) && final(users)@ == old(users)@,
            input@ != "\n"@ ==> match statement(lex_spec(input@)) {
                Err(e) => r matches Err(RorError::CmdError(error)) && error@ == e && *final(self)
                    == *old(self) && final(users)@ == old(users)@,
                Ok(StatementView::Open { file }) => r matches Ok(Reply::Opening(path)) && path@
                    == file && *final(self) == *old(self) && final(users)@ == old(users)@,
                Ok(StatementView::Add { key, value, datatype }) => final(users)@ == old(users)@
                    && if datatype.floating() {
                    r matches Ok(Reply::AddFloating { key: k, value: v, datatype: t }) && k@ == key
                        && v@ == value && t == datatype && *final(self) == *old(self)
                } else {
                    match typed(value, datatype) {
                        Some(x) => r matches Ok(Reply::Added { key: k, value: v }) && k@ == key
                            && v@ == value && final(self).database@ == old(self).database@.insert(
                            key,
                            x,
                        ),
                        None => r matches Err(e) && e is ConvertError && *final(self) == *old(self),
                    }
                },
                Ok(StatementView::Delete { key }) => final(users)@ == old(users)@ && if old(self).database@.contains_key(key) {
                    r matches Ok(Reply::Deleted(k)) && k@ == key && final(self).database@ == old(self).database@.remove(key)
                } else {
                    r matches Err(RorError::KvError(KvError::KeyNotFound(k))) && k@ == key
                        && *final(self) == *old(self)
                },
                Ok(StatementView::Get { key }) => *final(self) == *old(self) && final(users)@
                    == old(users)@ && if old(self).database@.contains_key(key) {
                    r matches Ok(Reply::Found(value)) && value@ == old(self).database@[key]
                } else {
                    r matches Err(RorError::KvError(KvError::KeyNotFound(k))) && k@ == key
                },
                Ok(StatementView::TypeOf { key }) => *final(self) == *old(self) && final(users)@
                    == old(users)@ && if old(self).database@.contains_key(key) {
                    r matches Ok(Reply::TypeName(name)) && name@ == crate::store::kv::type_label(
                        old(self).database@[key],
                    )
                } else {
                    r matches Err(RorError::KvError(KvError::KeyNotFound(k))) && k@ == key
                },
                Ok(StatementView::Compact) => r == Ok::<Reply, RorError>(Reply::Compacted)
                    && final(users)@ == old(users)@ && final(self).database@ == old(self).database@ && final(self).database.uncompacted_view() == 0,
                Ok(StatementView::List { list }) => *final(self) == *old(self) && final(users)@
                    == old(users)@ && match list {
                    List::Values => r matches Ok(Reply::Values(values)) && values@.len() == old(self).database.key_order().len()
                        && forall|j: int|
                        0 <= j < values@.len() ==> (#[trigger] values@[j])@ == old(self).database@[old(self).database.key_order()[j]],
                    List::Entries => r matches Ok(Reply::Entries(entries)) && entries@.len()
                        == old(self).database.key_order().len() && forall|j: int|
                        0 <= j < entries@.len() ==> (#[trigger] entries@[j])@.key == old(self).database.key_order()[j] && entries@[j]@.value == old(self).database@[old(self).database.key_order()[j]],
                },
                Ok(StatementView::User { cmd }) => *final(self) == *old(self) && match cmd {
                    UserCmdView::Create { info } => if registrable(
                        table_view(old(users)@),
                        info.name,
                        info.password,
                        info.level,
                        user_max,
                        regex_match(password_pattern(), info.password) is None,
                        regex_match(password_pattern(), info.password) == Some(true),
                    ) {
                        &&& r matches Ok(Reply::UserCreated(name))
                        &&& name@ == info.name
                        &&& final(users)@.len() == old(users)@.len() + 1
                        &&& final(users)@.subrange(0, old(users)@.len() as int) == old(users)@
                        &&& final(users)@.last()@.name == info.name
                        &&& final(users)@.last()@.level == info.level
                    } else {
                        r matches Err(e) && e is UserError && final(users)@ == old(users)@
                    },
                    UserCmdView::Delete { name } => if has_name(table_view(old(users)@), name) {
                        r matches Ok(Reply::UserDeleted(n)) && n@ == name && final(users)@ == old(users)@.remove(first_named(table_view(old(users)@), name))
                    } else {
                        r matches Err(e) && e is UserError && final(users)@ == old(users)@
                    },
                },
                Ok(StatementView::Quit) => r == Ok::<Reply, RorError>(Reply::Quit) && *final(self)
                    == *old(self) && final(users)@ == old(users)@,
            },
    {
        if input.to_owned() == "\n".to_owned() {
            return Ok(Reply::Nothing);
        }
        let mut parser = Parser::new();
        let parsed = match parser.parse(input) {
            Ok(s) => s,
            Err(e) => {
                return Err(RorError::CmdError(e));
            },
        };
        match parsed {
            Statement::Open { file } => Ok(Reply::Opening(file)),
            Statement::Add { key, value, datatype } => {
                if datatype.is_floating() {
                    return Ok(Reply::AddFloating { key, value, datatype });
                }
                let db_value = match to_value(value.duplicate(), datatype) {
                    Ok(v) => v,
                    Err(e) => {
                        return Err(e);
                    },
                };
                match self.database.add(key.clone(), db_value) {
                    Ok(_) => Ok(Reply::Added { key, value }),
                    Err(e) => Err(RorError::KvError(e)),
                }
            },
            Statement::Delete { key } => {
                match self.database.delete(key.clone()) {
                    Ok(_) => Ok(Reply::Deleted(key)),
                    Err(e) => Err(RorError::KvError(e)),
                }
            },
            Statement::Get { key } => {
                match self.database.get(key) {
                    Ok(value) => Ok(Reply::Found(value)),
                    Err(e) => Err(RorError::KvError(e)),
                }
            },
            Statement::Compact => {
                match self.database.compact() {
                    Ok(_) => Ok(Reply::Compacted),
                    Err(e) => Err(RorError::KvError(e)),
                }
            },
            Statement::TypeOf { key } => {
                match self.database.get(key) {
                    Ok(value) => Ok(Reply::TypeName(DataStore::type_of(value))),
                    Err(e) => Err(RorError::KvError(e)),
                }
            },
            Statement::List { list } => {
                match list {
                    List::Values => match self.database.get_all_value() {
                        Ok(data) => Ok(Reply::Values(data)),
                        Err(e) => Err(RorError::KvError(e)),
                    },
                    List::Entries => match self.database.get_all_entry() {
                        Ok(data) => Ok(Reply::Entries(data)),
                        Err(e) => Err(RorError::KvError(e)),
                    },
                }
            },
            Statement::User { cmd } => {
                match cmd {
                    UserCmd::Create { info } => {
                        proof {
                            lemma_registrable(
                                table_view(users@),
                                info.name,
                                info.password,
                                info.level,
                                user_max,
                                regex_match(password_pattern(), info.password@) is None,
                                regex_match(password_pattern(), info.password@) == Some(true),
                            );
                        }
                        let ghost before = users@;
                        match User::register(
                            users,
                            info.name.clone(),
                            info.password,
                            info.level,
                            user_max,
                        ) {
                            Ok(_) => {
                                proof {
                                    let grown = table_view(users@);
                                    assert(grown.last() == users@.last()@);
                                }
                                Ok(Reply::UserCreated(info.name))
                            },
                            Err(e) => Err(RorError::UserError(e)),
                        }
                    },
                    UserCmd::Delete { name } => {
                        match User::delete(users, name.clone()) {
                            Ok(_) => Ok(Reply::UserDeleted(name)),
                            Err(e) => Err(RorError::UserError(e)),
                        }
                    },
                }
            },
            Statement::Quit => Ok(Reply::Quit),
        }
    }

    /// Stores a value whose number the caller has read.
    pub fn add(&mut self, key: String, value: Value) -> (r: core::result::Result<(), RorError>)
        requires
            old(self).database.wf(),
        ensures
            r is Ok,
            final(self).database.wf(),
            final(self).database@ == old(self).database@.insert(key@, value@),
    {
        match self.database.add(key, value) {
            Ok(_) => Ok(()),
            Err(e) => Err(RorError::KvError(e)),
        }
    }

    /// Takes the store whose file is at `path` and holds `bytes` in place
    /// of the one that was open.  Where the bytes are no log the store
    /// that was open stays.
    pub fn opened(&mut self, path: &str, bytes: Vec<u8>) -> (r: core::result::Result<(), RorError>)
        requires
            old(self).database.wf(),
        ensures
            final(self).database.wf(),
            match parse_log(bytes@) {
                Ok(recs) => r is Ok && final(self).database.records() == recs && final(self).database.path_view() == path@,
                Err(e) => r matches Err(RorError::KvError(error)) && error == e && *final(self)
                    == *old(self),
            },
    {
        match DataStore::open(path, bytes) {
            Ok(database) => {
                self.database = database;
                Ok(())
            },
            Err(e) => Err(RorError::KvError(e)),
        }
    }
}

} // verus!
