//! Sessions and the shared stores they are bound to.
//!
//! The server keeps one store for each file that a session has asked
//! for, found again by the identity of the file and not by the spelling
//! of its path, and one entry for each live session.  Whoever runs the
//! sockets hands each event of a connection to the server and carries out
//! the step that comes back; holding the server behind one lock makes
//! every operation on a store exclusive.
use vstd::prelude::*;
use crate::error::RorError;
use crate::request::{
    ConnectError, ConnectReply, ConnectRequest, Message, OperateRequest, OperateRequestView,
    OperateResult, OperateResultView, Wire, frame,
};
use crate::store::kv::{DataStore, type_label};
use crate::store::kv_error::KvError;
use crate::store::log::parse_log;
use crate::store::value::{Value, ValueView};
use crate::user::user::{
    User, UserErrorKind, UserView, found, password_pattern, regex_match, registration, table_view,
    has_name, first_named,
};
use crate::user::user_error::UserError;

verus! {

/// The permission tiers, lowest first.
#[derive(Debug, PartialEq, Eq, Clone, Copy, Structural)]
pub enum Level {
    ReadOnly,
    ReadWrite,
    Admin,
    SuperAdmin,
}

impl Level {
    /// The place of a tier in the hierarchy.
    pub open spec fn rank(self) -> nat {
        match self {
            Level::ReadOnly => 0,
            Level::ReadWrite => 1,
            Level::Admin => 2,
            Level::SuperAdmin => 3,
        }
    }

    /// The place of this tier in the hierarchy.
    pub fn rank_of(&self) -> (r: u8)
        ensures
            r == self.rank(),
    {
        match self {
            Level::ReadOnly => 0,
            Level::ReadWrite => 1,
            Level::Admin => 2,
            Level::SuperAdmin => 3,
        }
    }

    /// Whether this tier is `required` or above.
    pub fn at_least(&self, required: Level) -> (b: bool)
        ensures
            b == (self.rank() >= required.rank()),
    {
        self.rank_of() >= required.rank_of()
    }

    /// The tier that an account's level text grants: "1" read-write, "2"
    /// administrative, "3" super-administrative, anything else read-only.
    pub open spec fn granted(text: Seq<char>) -> Level {
        if text == "1"@ {
            Level::ReadWrite
        } else if text == "2"@ {
            Level::Admin
        } else if text == "3"@ {
            Level::SuperAdmin
        } else {
            Level::ReadOnly
        }
    }

    /// The tier that an account's level text grants.
    pub fn of(text: &String) -> (level: Level)
        ensures
            level == Level::granted(text@),
    {
        if *text == "1".to_owned() {
            Level::ReadWrite
        } else if *text == "2".to_owned() {
            Level::Admin
        } else if *text == "3".to_owned() {
            Level::SuperAdmin
        } else {
            Level::ReadOnly
        }
    }

    /// The tier that a request needs: reading needs read-only, changing
    /// the store needs read-write, changing accounts needs
    /// super-administrative.
    pub open spec fn needed(request: OperateRequestView) -> Level {
        match request {
            OperateRequestView::Add { .. } => Level::ReadWrite,
            OperateRequestView::Delete { .. } => Level::ReadWrite,
            OperateRequestView::Compact => Level::ReadWrite,
            OperateRequestView::CreateUser { .. } => Level::SuperAdmin,
            OperateRequestView::DeleteUser { .. } => Level::SuperAdmin,
            _ => Level::ReadOnly,
        }
    }

    /// The tier that `request` needs.
    pub fn required_for(request: &OperateRequest) -> (level: Level)
        ensures
            level == Level::needed(request@),
    {
        match request {
            OperateRequest::Add { .. } => Level::ReadWrite,
            OperateRequest::Delete { .. } => Level::ReadWrite,
            OperateRequest::Compact => Level::ReadWrite,
            OperateRequest::CreateUser { .. } => Level::SuperAdmin,
            OperateRequest::DeleteUser { .. } => Level::SuperAdmin,
            _ => Level::ReadOnly,
        }
    }

    /// Whether a session of this tier may issue `request`.
    pub open spec fn permits(self, request: OperateRequestView) -> bool {
        self.rank() >= Level::needed(request).rank()
    }

    /// Tiers are monotonic: whatever a tier may do, every tier at or above
    /// it may do too.
    pub proof fn lemma_monotonic(lower: Level, higher: Level, request: OperateRequestView)
        requires
            higher.rank() >= lower.rank(),
            lower.permits(request),
        ensures
            higher.permits(request),
    {
    }
}

/// The identity of a file: the same for every path that leads to it.
#[derive(Debug, PartialEq, Eq, Clone, Copy, Structural)]
pub struct FileId {
    pub dev: u64,
    pub ino: u64,
}

/// What the connection of a session delivered.
#[derive(Debug, PartialEq, Eq)]
pub enum Incoming {
    /// Nothing arrived in this poll.
    Idle,
    /// A length prefix arrived, its body did not.
    Partial,
    /// A frame arrived; this is its body.
    Frame(Vec<u8>),
    /// The connection failed.
    Broken,
}

/// Why a session ends.
#[derive(Debug, PartialEq, Eq, Clone, Copy, Structural)]
pub enum SessionEnd {
    /// The session was idle for as many polls as its timeout allows.
    Timeout,
    /// The client asked to quit.
    Disconnected,
    /// The connection failed.
    Broken,
}

/// What is to be done with the connection next.
#[derive(Debug, PartialEq, Eq)]
pub enum Step {
    /// Poll again.
    Wait,
    /// Send this frame, then poll again.
    Send(Vec<u8>),
    /// Close the connection.
    Close(SessionEnd),
}

/// One session: a connection bound to a store and a tier.
#[derive(Debug, PartialEq, Eq)]
pub struct Client {
    pub address: String,
    pub db: FileId,
    pub level: Level,
    pub timeout: u64,
    pub set_timeout: u64,
}

/// Whether `r` is an answer with the content `result`.
pub open spec fn answers(
    r: core::result::Result<OperateResult, RorError>,
    result: OperateResultView,
) -> bool {
    r matches Ok(answer) && answer@ == result
}

/// What a session answers to a request that its tier permits, and what
/// becomes of the store and of the accounts.
pub open spec fn performed(
    command: OperateRequest,
    db_before: DataStore,
    db_after: DataStore,
    users_before: Seq<User>,
    users_after: Seq<User>,
    user_max: u16,
    r: core::result::Result<OperateResult, RorError>,
) -> bool {
    match command {
        OperateRequest::Open { .. } => {
            &&& answers(r, OperateResultView::Failure)
            &&& db_after == db_before
            &&& users_after == users_before
        },
        OperateRequest::Get { key } => {
            &&& db_after == db_before
            &&& users_after == users_before
            &&& answers(
                r,
                if db_before@.contains_key(key@) {
                    OperateResultView::Found(db_before@[key@])
                } else {
                    OperateResultView::KeyNotFound
                },
            )
        },
        OperateRequest::GetType { key } => {
            &&& db_after == db_before
            &&& users_after == users_before
            &&& answers(
                r,
                if db_before@.contains_key(key@) {
                    OperateResultView::Type(type_label(db_before@[key@]))
                } else {
                    OperateResultView::KeyNotFound
                },
            )
        },
        OperateRequest::Add { key, value } => {
            &&& users_after == users_before
            &&& answers(r, OperateResultView::Success)
            &&& db_after@ == db_before@.insert(key@, value@)
        },
        OperateRequest::Delete { key } => {
            &&& users_after == users_before
            &&& if db_before@.contains_key(key@) {
                answers(r, OperateResultView::Success) && db_after@ == db_before@.remove(key@)
            } else {
                answers(r, OperateResultView::KeyNotFound) && db_after == db_before
            }
        },
        OperateRequest::Compact => {
            &&& users_after == users_before
            &&& answers(r, OperateResultView::Success)
            &&& db_after@ == db_before@
            &&& db_after.uncompacted_view() == 0
            &&& db_after.log_view().len() + db_before.uncompacted_view()
                == db_before.log_view().len()
        },
        OperateRequest::CreateUser { name, password, level } => {
            &&& db_after == db_before
            &&& if registration(
                table_view(users_before),
                name,
                password,
                level,
                user_max,
                regex_match(password_pattern(), password@) is None,
                regex_match(password_pattern(), password@) == Some(true),
            ) is Ok {
                &&& answers(r, OperateResultView::Success)
                &&& users_after.len() == users_before.len() + 1
                &&& users_after.subrange(0, users_before.len() as int) == users_before
                &&& users_after.last()@.name == name@
                &&& users_after.last()@.level == level@
            } else {
                answers(r, OperateResultView::Failure) && users_after == users_before
            }
        },
        OperateRequest::DeleteUser { name } => {
            &&& db_after == db_before
            &&& if has_name(table_view(users_before), name@) {
                answers(r, OperateResultView::Success) && users_after == users_before.remove(
                    first_named(table_view(users_before), name@),
                )
            } else {
                answers(r, OperateResultView::Failure) && users_after == users_before
            }
        },
        OperateRequest::Quit => {
            &&& r == Err::<OperateResult, RorError>(RorError::Disconnect)
            &&& db_after == db_before
            &&& users_after == users_before
        },
    }
}

/// What a session of tier `level` does with a request: a request that the
/// tier does not permit is denied and touches nothing.
pub open spec fn dispatched(
    level: Level,
    command: OperateRequest,
    db_before: DataStore,
    db_after: DataStore,
    users_before: Seq<User>,
    users_after: Seq<User>,
    user_max: u16,
    r: core::result::Result<OperateResult, RorError>,
) -> bool {
    if level.permits(command@) {
        performed(command, db_before, db_after, users_before, users_after, user_max, r)
    } else {
        answers(r, OperateResultView::PermissionDenied) && db_after == db_before && users_after
            == users_before
    }
}

/// The frame that answers with `result`.
pub open spec fn reply_frame(result: OperateResultView) -> Seq<u8> {
    frame(OperateResult::layout(result))
}

/// Whether `step` is to send exactly `bytes`.
pub open spec fn sends(step: Step, bytes: Seq<u8>) -> bool {
    step matches Step::Send(buf) && buf@ == bytes
}

/// What a session does with what its connection delivered.
pub open spec fn accepted(
    before: Client,
    after: Client,
    event: Incoming,
    db_before: DataStore,
    db_after: DataStore,
    users_before: Seq<User>,
    users_after: Seq<User>,
    user_max: u16,
    step: Step,
) -> bool {
    &&& after.address == before.address
    &&& after.db == before.db
    &&& after.level == before.level
    &&& after.set_timeout == before.set_timeout
    &&& match event {
        Incoming::Idle => step == Step::Wait && after.timeout == (if before.timeout < u64::MAX {
            (before.timeout + 1) as u64
        } else {
            before.timeout
        }) && db_after == db_before && users_after == users_before,
        Incoming::Partial => step == Step::Wait && after.timeout == 0 && db_after == db_before
            && users_after == users_before,
        Incoming::Broken => step == Step::Close(SessionEnd::Broken) && after.timeout
            == before.timeout && db_after == db_before && users_after == users_before,
        Incoming::Frame(body) => after.timeout == 0 && match OperateRequest::parse(body@) {
            None => sends(step, reply_frame(OperateResultView::Failure)) && db_after == db_before
                && users_after == users_before,
            Some(request) => exists|command: OperateRequest, r: core::result::Result<OperateResult, RorError>|
                #![auto]
                command@ == request && dispatched(
                    before.level,
                    command,
                    db_before,
                    db_after,
                    users_before,
                    users_after,
                    user_max,
                    r,
                ) && match r {
                    Ok(result) => sends(step, reply_frame(result@)),
                    Err(_) => step == Step::Close(SessionEnd::Disconnected),
                },
        },
    }
}

impl Client {
    /// A session at `address`, bound to the store of file `db`, with tier
    /// `level`, which is closed after `set_timeout` idle polls in a row.
    pub fn new(address: String, db: FileId, level: Level, set_timeout: u64) -> (client: Client)
        ensures
            client == (Client { address, db, level, timeout: 0, set_timeout }),
    {
        Client { address, db, level, timeout: 0, set_timeout }
    }

    /// What is decided before each poll: the session ends as timed out
    /// once its idle polls have reached its timeout.
    pub fn handle_client(&self) -> (end: Option<SessionEnd>)
        ensures
            end == (if self.timeout >= self.set_timeout {
                Some(SessionEnd::Timeout)
            } else {
                None
            }),
    {
        if self.timeout >= self.set_timeout {
            Some(SessionEnd::Timeout)
        } else {
            None
        }
    }

    /// Carries out `command` on the session's store, if the session's tier
    /// permits it.
    pub fn match_command(
        &self,
        command: OperateRequest,
        db: &mut DataStore,
        users: &mut Vec<User>,
        user_max: u16,
    ) -> (r: core::result::Result<OperateResult, RorError>)
        requires
            old(db).wf(),
        ensures
            final(db).wf(),
            final(db).path_view() == old(db).path_view(),
            final(db).threshold_view() == old(db).threshold_view(),
            dispatched(
                self.level,
                command,
                *old(db),
                *final(db),
                old(users)@,
                final(users)@,
                user_max,
                r,
            ),
    {
        if !self.level.at_least(Level::required_for(&command)) {
            return Ok(OperateResult::PermissionDenied);
        }
        match command {
            OperateRequest::Open { path } => Ok(OperateResult::Failure),
            OperateRequest::Get { key } => {
                match db.get(key) {
                    Ok(value) => Ok(OperateResult::Found(value)),
                    Err(_) => Ok(OperateResult::KeyNotFound),
                }
            },
            OperateRequest::Delete { key } => {
                match db.delete(key) {
                    Ok(_) => Ok(OperateResult::Success),
                    Err(_) => Ok(OperateResult::KeyNotFound),
                }
            },
            OperateRequest::Add { key, value } => {
                match db.add(key, value) {
                    Ok(_) => Ok(OperateResult::Success),
                    Err(e) => Err(RorError::KvError(e)),
                }
            },
            OperateRequest::CreateUser { name, password, level } => {
                let ghost before = users@;
                match User::register(users, name, password, level, user_max) {
                    Ok(_) => {
                        proof {
                            let grown = table_view(users@);
                            assert(grown.last() == users@.last()@);
                        }
                        Ok(OperateResult::Success)
                    },
                    Err(_) => Ok(OperateResult::Failure),
                }
            },
            OperateRequest::DeleteUser { name } => {
                match User::delete(users, name) {
                    Ok(_) => Ok(OperateResult::Success),
                    Err(_) => Ok(OperateResult::Failure),
                }
            },
            OperateRequest::GetType { key } => {
                match db.get(key) {
                    Ok(value) => Ok(OperateResult::Type(DataStore::type_of(value))),
                    Err(_) => Ok(OperateResult::KeyNotFound),
                }
            },
            OperateRequest::Compact => {
                match db.compact() {
                    Ok(_) => Ok(OperateResult::Success),
                    Err(e) => Err(RorError::KvError(e)),
                }
            },
            OperateRequest::Quit => Err(RorError::Disconnect),
        }
    }

    /// Takes what the connection delivered: counts an idle poll, answers
    /// a frame, and says what to do with the connection next.  A body that
    /// is no request is answered with `Failure`; the session goes on.
    pub fn accept_request(
        &mut self,
        event: Incoming,
        db: &mut DataStore,
        users: &mut Vec<User>,
        user_max: u16,
    ) -> (step: Step)
        requires
            old(db).wf(),
        ensures
            final(db).wf(),
            final(db).path_view() == old(db).path_view(),
            final(db).threshold_view() == old(db).threshold_view(),
            accepted(
                *old(self),
                *final(self),
                event,
                *old(db),
                *final(db),
                old(users)@,
                final(users)@,
                user_max,
                step,
            ),
    {
        match event {
            Incoming::Idle => {
                if self.timeout < u64::MAX {
                    self.timeout = self.timeout + 1;
                }
                Step::Wait
            },
            Incoming::Partial => {
                self.timeout = 0;
                Step::Wait
            },
            Incoming::Broken => Step::Close(SessionEnd::Broken),
            Incoming::Frame(body) => {
                self.timeout = 0;
                let command = match OperateRequest::from_bytes(body.as_slice()) {
                    Some(command) => command,
                    None => {
                        return Step::Send(Self::reply(OperateResult::Failure));
                    },
                };
                let ghost asked = command;
                let r = self.match_command(command, db, users, user_max);
                match r {
                    Ok(result) => {
                        let ghost answer = result@;
                        let buf = Self::reply(result);
                        proof {
                            let witness: core::result::Result<OperateResult, RorError> = r;
                            assert(dispatched(
                                old(self).level,
                                asked,
                                *old(db),
                                *db,
                                old(users)@,
                                users@,
                                user_max,
                                witness,
                            ));
                        }
                        Step::Send(buf)
                    },
                    Err(_) => Step::Close(SessionEnd::Disconnected),
                }
            },
        }
    }

    /// The frame that answers with `result`.
    pub fn reply(result: OperateResult) -> (buf: Vec<u8>)
        ensures
            buf@ == reply_frame(result@),
    {
        let message = Message::new(result);
        match message.as_bytes() {
            Ok((buf, _)) => buf,
            Err(_) => Vec::new(),
        }
    }
}

/// How the server is set up.
#[derive(Debug, PartialEq, Eq)]
pub struct Config {
    pub name: String,
    pub ip: String,
    pub port: String,
    pub data_path: String,
    pub timeout: u64,
    pub repl: bool,
    pub local_user: String,
    pub default_db: String,
    pub auto_refresh: u32,
}

impl Config {
    /// A server on the loopback address that closes a session after 300
    /// idle polls and sweeps after every 20 connections.
    pub fn default() -> (config: Config)
        ensures
            config.name@ == "Default server"@,
            config.ip@ == "127.0.0.1"@,
            config.port@ == "11451"@,
            config.data_path@ == "./data/"@,
            config.timeout == 300,
            !config.repl,
            config.local_user@ == Seq::<char>::empty(),
            config.default_db@ == Seq::<char>::empty(),
            config.auto_refresh == 20,
    {
        Config {
            name: "Default server".to_owned(),
            ip: "127.0.0.1".to_owned(),
            port: "11451".to_owned(),
            data_path: "./data/".to_owned(),
            timeout: 300,
            repl: false,
            local_user: String::new(),
            default_db: String::new(),
            auto_refresh: 20,
        }
    }
}

/// One shared store and the file it belongs to.
pub struct Db {
    pub id: FileId,
    pub path: String,
    pub store: DataStore,
}

/// Whether a file has its store already.
#[derive(Debug, PartialEq, Eq, Clone, Copy, Structural)]
pub enum DataPath {
    /// The store is the one at this place among the server's stores.
    Exists(usize),
    /// No store is open for the file.
    Missing,
}

/// A requested data file as it was found: its identity, the path that
/// led to it and the bytes it holds.
pub struct Located {
    pub id: FileId,
    pub path: String,
    pub bytes: Vec<u8>,
}

/// The session manager: the shared stores and the live sessions.
pub struct Server {
    pub config: Config,
    pub dbs: Vec<Db>,
    pub clients: Vec<Client>,
}

/// The place of the first store of file `id`, or the number of stores
/// where there is none.
pub open spec fn first_db(dbs: Seq<Db>, id: FileId) -> int
    decreases dbs.len(),
{
    if dbs.len() == 0 {
        0
    } else if dbs[0].id == id {
        0
    } else {
        1 + first_db(dbs.drop_first(), id)
    }
}

/// The place of the first session at `address`, or the number of sessions
/// where there is none.
pub open spec fn first_client(clients: Seq<Client>, address: Seq<char>) -> int
    decreases clients.len(),
{
    if clients.len() == 0 {
        0
    } else if clients[0].address@ == address {
        0
    } else {
        1 + first_client(clients.drop_first(), address)
    }
}

/// `first_db` stays inside the stores and points at the first one of the
/// file.
pub proof fn lemma_first_db(dbs: Seq<Db>, id: FileId)
    ensures
        0 <= first_db(dbs, id) <= dbs.len(),
        first_db(dbs, id) < dbs.len() ==> dbs[first_db(dbs, id)].id == id,
        forall|i: int| 0 <= i < first_db(dbs, id) ==> (#[trigger] dbs[i]).id != id,
    decreases dbs.len(),
{
    if dbs.len() > 0 && dbs[0].id != id {
        let rest = dbs.drop_first();
        lemma_first_db(rest, id);
        assert forall|i: int| 0 <= i < first_db(dbs, id) implies (#[trigger] dbs[i]).id != id by {
            if i > 0 {
                assert(dbs[i] == rest[i - 1]);
            }
        }
    }
}

/// The first place at which a file's store stands is `first_db`.
pub proof fn lemma_first_db_is(dbs: Seq<Db>, id: FileId, at: int)
    requires
        0 <= at <= dbs.len(),
        forall|i: int| 0 <= i < at ==> (#[trigger] dbs[i]).id != id,
        at < dbs.len() ==> dbs[at].id == id,
    ensures
        first_db(dbs, id) == at,
    decreases dbs.len(),
{
    if dbs.len() > 0 && at > 0 {
        let rest = dbs.drop_first();
        assert(dbs[0].id != id);
        assert forall|i: int| 0 <= i < at - 1 implies (#[trigger] rest[i]).id != id by {
            assert(rest[i] == dbs[i + 1]);
        }
        lemma_first_db_is(rest, id, at - 1);
    }
}

/// The first place at which an address stands is `first_client`.
pub proof fn lemma_first_client_is(clients: Seq<Client>, address: Seq<char>, at: int)
    requires
        0 <= at <= clients.len(),
        forall|i: int| 0 <= i < at ==> (#[trigger] clients[i]).address@ != address,
        at < clients.len() ==> clients[at].address@ == address,
    ensures
        first_client(clients, address) == at,
    decreases clients.len(),
{
    if clients.len() > 0 && at > 0 {
        let rest = clients.drop_first();
        assert(clients[0].address@ != address);
        assert forall|i: int| 0 <= i < at - 1 implies (#[trigger] rest[i]).address@ != address by {
            assert(rest[i] == clients[i + 1]);
        }
        lemma_first_client_is(rest, address, at - 1);
    }
}

/// The sessions once `client` has joined them: it takes the place of the
/// session at its address, if there is one, and else comes last.
pub open spec fn with_client(clients: Seq<Client>, client: Client) -> Seq<Client> {
    let at = first_client(clients, client.address@);
    if at < clients.len() {
        clients.update(at, client)
    } else {
        clients.push(client)
    }
}

/// Whether `address` is among `finished`.
pub open spec fn listed(finished: Seq<String>, address: Seq<char>) -> bool {
    exists|i: int| 0 <= i < finished.len() && (#[trigger] finished[i])@ == address
}

/// Whether a session is bound to the store of file `id`.
pub open spec fn bound(clients: Seq<Client>, id: FileId) -> bool {
    exists|i: int| 0 <= i < clients.len() && (#[trigger] clients[i]).db == id
}

/// The sessions that go on: those whose address is not among `finished`.
pub open spec fn kept_clients(clients: Seq<Client>, finished: Seq<String>) -> Seq<Client>
    decreases clients.len(),
{
    if clients.len() == 0 {
        Seq::empty()
    } else {
        let before = kept_clients(clients.drop_last(), finished);
        if listed(finished, clients.last().address@) {
            before
        } else {
            before.push(clients.last())
        }
    }
}

/// The stores that stay open: those to which a session is bound.
pub open spec fn kept_dbs(dbs: Seq<Db>, clients: Seq<Client>) -> Seq<Db>
    decreases dbs.len(),
{
    if dbs.len() == 0 {
        Seq::empty()
    } else {
        let before = kept_dbs(dbs.drop_last(), clients);
        if bound(clients, dbs.last().id) {
            before.push(dbs.last())
        } else {
            before
        }
    }
}

/// Every store that stays open was open before.
pub proof fn lemma_kept_dbs(dbs: Seq<Db>, clients: Seq<Client>)
    ensures
        forall|i: int|
            0 <= i < kept_dbs(dbs, clients).len() ==> exists|j: int|
                0 <= j < dbs.len() && dbs[j] == #[trigger] kept_dbs(dbs, clients)[i],
        forall|a: int, b: int|
            0 <= a < b < kept_dbs(dbs, clients).len() ==> exists|i: int, j: int|
                0 <= i < j < dbs.len() && dbs[i] == #[trigger] kept_dbs(dbs, clients)[a] && dbs[j]
                    == #[trigger] kept_dbs(dbs, clients)[b],
    decreases dbs.len(),
{
    if dbs.len() > 0 {
        let init = dbs.drop_last();
        let before = kept_dbs(init, clients);
        let kept = kept_dbs(dbs, clients);
        lemma_kept_dbs(init, clients);
        assert forall|i: int| 0 <= i < kept.len() implies exists|j: int|
            0 <= j < dbs.len() && dbs[j] == #[trigger] kept[i] by {
            if i < before.len() {
                let j = choose|j: int| 0 <= j < init.len() && init[j] == before[i];
                assert(dbs[j] == kept[i]);
            } else {
                assert(dbs[dbs.len() - 1] == kept[i]);
            }
        }
        assert forall|a: int, b: int| 0 <= a < b < kept.len() implies exists|i: int, j: int|
            0 <= i < j < dbs.len() && dbs[i] == #[trigger] kept[a] && dbs[j]
                == #[trigger] kept[b] by {
            if b < before.len() {
                let (i, j) = choose|i: int, j: int|
                    0 <= i < j < init.len() && init[i] == before[a] && init[j] == before[b];
                assert(dbs[i] == kept[a] && dbs[j] == kept[b]);
            } else {
                let i = choose|i: int| 0 <= i < init.len() && init[i] == before[a];
                assert(dbs[i] == kept[a] && dbs[dbs.len() - 1] == kept[b]);
            }
        }
    }
}

/// Whether the stores are sound, each file having one store at most.
pub open spec fn stores_ok(dbs: Seq<Db>) -> bool {
    &&& forall|i: int| 0 <= i < dbs.len() ==> (#[trigger] dbs[i]).store.wf()
    &&& forall|i: int, j: int|
        0 <= i < j < dbs.len() ==> (#[trigger] dbs[i]).id != (#[trigger] dbs[j]).id
}

/// What a handshake is answered with, before any file is looked at: the
/// reason for refusing it, or nothing where the login holds.
pub open spec fn login_fault(body: Seq<u8>, table: Seq<UserView>) -> Option<ConnectError> {
    match ConnectRequest::parse(body) {
        None => Some(ConnectError::RequestError),
        Some(request) => match found(table, request.user_name) {
            Err(UserErrorKind::UserNotFound) => Some(ConnectError::UserNotFound),
            Err(_) => Some(ConnectError::ServerError),
            Ok(user) => if user.password == request.password {
                None
            } else {
                Some(ConnectError::PasswordError)
            },
        },
    }
}

impl Server {
    /// A server with no store open and no session.
    pub fn new(config: Config) -> (server: Server)
        ensures
            server.wf(),
            server.config == config,
            server.dbs@.len() == 0,
            server.clients@.len() == 0,
    {
        Server { config, dbs: Vec::new(), clients: Vec::new() }
    }

    /// The invariant of the server: every store is sound, and no file has
    /// two stores.
    pub open spec fn wf(&self) -> bool {
        stores_ok(self.dbs@)
    }

    /// Looks for the store of file `id`.
    pub fn compare(&self, id: FileId) -> (r: DataPath)
        ensures
            r == (if first_db(self.dbs@, id) < self.dbs@.len() {
                DataPath::Exists(first_db(self.dbs@, id) as usize)
            } else {
                DataPath::Missing
            }),
    {
        let mut i: usize = 0;
        while i < self.dbs.len()
            invariant
                i <= self.dbs@.len(),
                forall|j: int| 0 <= j < i ==> (#[trigger] self.dbs@[j]).id != id,
            decreases self.dbs@.len() - i,
        {
            if self.dbs[i].id.dev == id.dev && self.dbs[i].id.ino == id.ino {
                proof {
                    lemma_first_db_is(self.dbs@, id, i as int);
                }
                return DataPath::Exists(i);
            }
            i += 1;
        }
        proof {
            lemma_first_db_is(self.dbs@, id, i as int);
        }
        DataPath::Missing
    }

    /// Opens the store of file `id`, whose path is `path` and which holds
    /// `bytes`, unless the file has its store already.  Says at which place
    /// the store stands.
    pub fn open_new_db(&mut self, path: String, id: FileId, bytes: Vec<u8>) -> (r:
        core::result::Result<usize, RorError>)
        requires
            old(self).wf(),
        ensures
            final(self).wf(),
            final(self).config == old(self).config,
            final(self).clients == old(self).clients,
            first_db(old(self).dbs@, id) < old(self).dbs@.len() ==> *final(self) == *old(self)
                && r == Ok::<usize, RorError>(first_db(old(self).dbs@, id) as usize),
            first_db(old(self).dbs@, id) >= old(self).dbs@.len() ==> match parse_log(bytes@) {
                Ok(recs) => r == Ok::<usize, RorError>(old(self).dbs@.len() as usize)
                    && final(self).dbs@.len() == old(self).dbs@.len() + 1 && final(self).dbs@.subrange(0, old(self).dbs@.len() as int) == old(self).dbs@ && final(self).dbs@.last().id == id && final(self).dbs@.last().path == path && final(self).dbs@.last().store.records() == recs && final(self).dbs@.last().store.log_view() == bytes@,
                Err(e) => r == Err::<usize, RorError>(RorError::KvError(e)) && *final(self)
                    == *old(self),
            },
    {
        match self.compare(id) {
            DataPath::Exists(at) => {
                return Ok(at);
            },
            DataPath::Missing => {},
        }
        proof {
            lemma_first_db(self.dbs@, id);
        }
        let store = match DataStore::open(path.as_str(), bytes) {
            Ok(store) => store,
            Err(e) => {
                return Err(RorError::KvError(e));
            },
        };
        let at = self.dbs.len();
        self.dbs.push(Db { id, path, store });
        assert(self.dbs@.subrange(0, at as int) =~= old(self).dbs@);
        Ok(at)
    }

    /// The place of the session at `address`.
    fn client_at(&self, address: &String) -> (at: usize)
        ensures
            at == first_client(self.clients@, address@),
            at <= self.clients@.len(),
    {
        let mut i: usize = 0;
        while i < self.clients.len()
            invariant
                i <= self.clients@.len(),
                forall|j: int| 0 <= j < i ==> (#[trigger] self.clients@[j]).address@ != address@,
            decreases self.clients@.len() - i,
        {
            if self.clients[i].address == *address {
                proof {
                    lemma_first_client_is(self.clients@, address@, i as int);
                }
                return i;
            }
            i += 1;
        }
        proof {
            lemma_first_client_is(self.clients@, address@, i as int);
        }
        i
    }

    /// Takes `client` among the sessions, in the place of the session at
    /// its address if there is one.
    pub fn new_client(&mut self, client: Client)
        ensures
            final(self).clients@ == with_client(old(self).clients@, client),
            final(self).dbs == old(self).dbs,
            final(self).config == old(self).config,
    {
        let at = self.client_at(&client.address);
        if at < self.clients.len() {
            self.clients.set(at, client);
        } else {
            self.clients.push(client);
        }
    }

    /// Decodes a handshake and checks the login against the accounts.
    /// Gives the request and the tier that its account grants, or the
    /// reason for refusing.
    pub fn authenticate(body: &[u8], users: &Vec<User>) -> (r: core::result::Result<
        (ConnectRequest, Level),
        ConnectError,
    >)
        ensures
            match login_fault(body@, table_view(users@)) {
                Some(e) => r == Err::<(ConnectRequest, Level), ConnectError>(e),
                None => {
                    &&& r matches Ok((request, level))
                    &&& Some(request@) == ConnectRequest::parse(body@)
                    &&& found(table_view(users@), request@.user_name) matches Ok(user)
                    &&& level == Level::granted(user.level)
                },
            },
    {
        let head = match ConnectRequest::from_bytes(body) {
            Some(head) => head,
            None => {
                return Err(ConnectError::RequestError);
            },
        };
        let user = match User::login(users, head.user_name.clone(), head.password.clone()) {
            Ok(user) => user,
            Err(UserError::UserNotFound(_)) => {
                return Err(ConnectError::UserNotFound);
            },
            Err(UserError::WrongPassWord) => {
                return Err(ConnectError::PasswordError);
            },
            Err(_) => {
                return Err(ConnectError::ServerError);
            },
        };
        let level = Level::of(user.level());
        Ok((head, level))
    }

    /// The handshake of a new connection from `address`.  `body` is the
    /// body of its first frame and `located` the data file that the request
    /// names, as it was found, or nothing where its path leads nowhere.
    ///
    /// A handshake that is refused changes nothing: no store is opened and
    /// no session is taken in.  One that succeeds binds a session to the
    /// store of the file, which is opened only where the file has none yet.
    pub fn handle_connection(
        &mut self,
        body: &[u8],
        users: &Vec<User>,
        address: String,
        located: Option<Located>,
    ) -> (reply: ConnectReply)
        requires
            old(self).wf(),
        ensures
            final(self).wf(),
            final(self).config == old(self).config,
            reply is Error ==> *final(self) == *old(self),
            match login_fault(body@, table_view(users@)) {
                Some(e) => reply == ConnectReply::Error(e),
                None => match located {
                    None => reply == ConnectReply::Error(ConnectError::PathError),
                    Some(file) => {
                        let user = found(
                            table_view(users@),
                            ConnectRequest::parse(body@)->0.user_name,
                        )->Ok_0;
                        let session = Client {
                            address,
                            db: file.id,
                            level: Level::granted(user.level),
                            timeout: 0,
                            set_timeout: old(self).config.timeout,
                        };
                        if first_db(old(self).dbs@, file.id) < old(self).dbs@.len() {
                            &&& reply == ConnectReply::Success
                            &&& final(self).dbs == old(self).dbs
                            &&& final(self).clients@ == with_client(old(self).clients@, session)
                        } else {
                            match parse_log(file.bytes@) {
                                Err(_) => reply == ConnectReply::Error(ConnectError::OpenFileError),
                                Ok(recs) => {
                                    &&& reply == ConnectReply::Success
                                    &&& final(self).clients@ == with_client(
                                        old(self).clients@,
                                        session,
                                    )
                                    &&& final(self).dbs@.len() == old(self).dbs@.len() + 1
                                    &&& final(self).dbs@.subrange(0, old(self).dbs@.len() as int)
                                        == old(self).dbs@
                                    &&& final(self).dbs@.last().id == file.id
                                    &&& final(self).dbs@.last().path == file.path
                                    &&& final(self).dbs@.last().store.records() == recs
                                }
                            }
                        }
                    },
                },
            },
    {
        let (_, level) = match Self::authenticate(body, users) {
            Ok(x) => x,
            Err(e) => {
                return ConnectReply::Error(e);
            },
        };
        let file = match located {
            Some(file) => file,
            None => {
                return ConnectReply::Error(ConnectError::PathError);
            },
        };
        let id = file.id;
        match self.open_new_db(file.path, id, file.bytes) {
            Ok(_) => {},
            Err(_) => {
                return ConnectReply::Error(ConnectError::OpenFileError);
            },
        }
        let client = Client::new(address, id, level, self.config.timeout);
        self.new_client(client);
        ConnectReply::Success
    }

    /// Hands what the connection at `address` delivered to its session,
    /// which works on the store it is bound to.  Where there is no such
    /// session, or its store is gone, the connection is to be closed.
    pub fn accept_request(
        &mut self,
        address: &String,
        event: Incoming,
        users: &mut Vec<User>,
        user_max: u16,
    ) -> (step: Step)
        requires
            old(self).wf(),
        ensures
            final(self).wf(),
            final(self).config == old(self).config,
            ({
                let c = first_client(old(self).clients@, address@);
                if c >= old(self).clients@.len() {
                    step == Step::Close(SessionEnd::Broken) && *final(self) == *old(self)
                        && final(users)@ == old(users)@
                } else {
                    let d = first_db(old(self).dbs@, old(self).clients@[c].db);
                    if d >= old(self).dbs@.len() {
                        step == Step::Close(SessionEnd::Broken) && *final(self) == *old(self)
                            && final(users)@ == old(users)@
                    } else {
                        &&& final(self).clients@.len() == old(self).clients@.len()
                        &&& final(self).dbs@.len() == old(self).dbs@.len()
                        &&& forall|i: int|
                            0 <= i < old(self).clients@.len() && i != c ==> final(self).clients@[i]
                                == old(self).clients@[i]
                        &&& forall|i: int|
                            0 <= i < old(self).dbs@.len() && i != d ==> final(self).dbs@[i] == old(self).dbs@[i]
                        &&& final(self).dbs@[d].id == old(self).dbs@[d].id
                        &&& final(self).dbs@[d].path == old(self).dbs@[d].path
                        &&& accepted(
                            old(self).clients@[c],
                            final(self).clients@[c],
                            event,
                            old(self).dbs@[d].store,
                            final(self).dbs@[d].store,
                            old(users)@,
                            final(users)@,
                            user_max,
                            step,
                        )
                    }
                }
            }),
    {
        let c = self.client_at(address);
        if c >= self.clients.len() {
            return Step::Close(SessionEnd::Broken);
        }
        let stores: usize = self.dbs.len();
        proof {
            lemma_first_db(self.dbs@, self.clients@[c as int].db);
        }
        let d = match self.compare(self.clients[c].db) {
            DataPath::Exists(d) => d,
            DataPath::Missing => {
                return Step::Close(SessionEnd::Broken);
            },
        };
        proof {
            lemma_first_db(self.dbs@, self.clients@[c as int].db);
        }
        let mut client = self.clients.remove(c);
        let mut db = self.dbs.remove(d);
        assert(db.store.wf());
        let step = client.accept_request(event, &mut db.store, users, user_max);
        self.dbs.insert(d, db);
        self.clients.insert(c, client);
        proof {
            let dbs = old(self).dbs@;
            let clients = old(self).clients@;
            assert(self.dbs@ =~= dbs.update(d as int, db));
            assert(self.clients@ =~= clients.update(c as int, client));
            assert(self.dbs@[d as int] == db);
            assert(self.clients@[c as int] == client);
            assert(db.id == dbs[d as int].id && db.path == dbs[d as int].path);
            assert forall|i: int| 0 <= i < self.dbs@.len() implies (#[trigger] self.dbs@[i]).store.wf() by {
                if i != d {
                    assert(self.dbs@[i] == dbs[i]);
                    assert(dbs[i].store.wf());
                }
            }
            assert forall|i: int, j: int| 0 <= i < j < self.dbs@.len() implies (
            #[trigger] self.dbs@[i]).id != (#[trigger] self.dbs@[j]).id by {
                assert(self.dbs@[i].id == dbs[i].id);
                assert(self.dbs@[j].id == dbs[j].id);
                assert(dbs[i].id != dbs[j].id);
            }
            assert(first_client(clients, address@) == c);
            assert(first_db(dbs, clients[c as int].db) == d);
        }
        step
    }

    /// Whether `address` is among `finished`.
    fn is_listed(finished: &Vec<String>, address: &String) -> (b: bool)
        ensures
            b == listed(finished@, address@),
    {
        let mut i: usize = 0;
        while i < finished.len()
            invariant
                i <= finished@.len(),
                forall|j: int| 0 <= j < i ==> (#[trigger] finished@[j])@ != address@,
            decreases finished@.len() - i,
        {
            if finished[i] == *address {
                return true;
            }
            i += 1;
        }
        false
    }

    /// Whether a session is bound to the store of file `id`.
    fn is_bound(&self, id: FileId) -> (b: bool)
        ensures
            b == bound(self.clients@, id),
    {
        let mut i: usize = 0;
        while i < self.clients.len()
            invariant
                i <= self.clients@.len(),
                forall|j: int| 0 <= j < i ==> (#[trigger] self.clients@[j]).db != id,
            decreases self.clients@.len() - i,
        {
            if self.clients[i].db.dev == id.dev && self.clients[i].db.ino == id.ino {
                return true;
            }
            i += 1;
        }
        false
    }

    /// Sweeps: the sessions whose address is among `finished` are
    /// forgotten, and then every store to which no session is bound is
    /// closed.
    pub fn refresh(&mut self, finished: &Vec<String>) -> (r: core::result::Result<(), RorError>)
        requires
            old(self).wf(),
        ensures
            r is Ok,
            final(self).wf(),
            final(self).config == old(self).config,
            final(self).clients@ == kept_clients(old(self).clients@, finished@),
            final(self).dbs@ == kept_dbs(old(self).dbs@, final(self).clients@),
    {
        let ghost all_clients = self.clients@;
        let ghost all_dbs = self.dbs@;
        let mut clients: Vec<Client> = Vec::new();
        core::mem::swap(&mut clients, &mut self.clients);
        let ghost mut done: int = 0;
        assert(all_clients.take(0) =~= Seq::<Client>::empty());
        assert(all_clients.skip(0) =~= all_clients);
        while clients.len() > 0
            invariant
                0 <= done <= all_clients.len(),
                clients@ == all_clients.skip(done),
                self.clients@ == kept_clients(all_clients.take(done), finished@),
                self.dbs@ == all_dbs,
                self.config == old(self).config,
            decreases clients@.len(),
        {
            let client = clients.remove(0);
            proof {
                let next = all_clients.take(done + 1);
                assert(next.drop_last() =~= all_clients.take(done));
                assert(next.last() == all_clients[done]);
                assert(clients@ =~= all_clients.skip(done + 1));
            }
            if !Self::is_listed(finished, &client.address) {
                self.clients.push(client);
            }
            proof {
                done = done + 1;
            }
        }
        assert(all_clients.take(all_clients.len() as int) =~= all_clients);
        let mut dbs: Vec<Db> = Vec::new();
        core::mem::swap(&mut dbs, &mut self.dbs);
        let ghost mut seen: int = 0;
        assert(all_dbs.take(0) =~= Seq::<Db>::empty());
        assert(all_dbs.skip(0) =~= all_dbs);
        while dbs.len() > 0
            invariant
                0 <= seen <= all_dbs.len(),
                dbs@ == all_dbs.skip(seen),
                self.dbs@ == kept_dbs(all_dbs.take(seen), self.clients@),
                self.clients@ == kept_clients(all_clients, finished@),
                self.config == old(self).config,
            decreases dbs@.len(),
        {
            let db = dbs.remove(0);
            proof {
                let next = all_dbs.take(seen + 1);
                assert(next.drop_last() =~= all_dbs.take(seen));
                assert(next.last() == all_dbs[seen]);
                assert(dbs@ =~= all_dbs.skip(seen + 1));
            }
            if self.is_bound(db.id) {
                self.dbs.push(db);
            }
            proof {
                seen = seen + 1;
            }
        }
        proof {
            assert(all_dbs.take(all_dbs.len() as int) =~= all_dbs);
            lemma_kept_dbs(all_dbs, self.clients@);
            let kept = self.dbs@;
            assert forall|i: int| 0 <= i < kept.len() implies (#[trigger] kept[i]).store.wf() by {
                let j = choose|j: int| 0 <= j < all_dbs.len() && all_dbs[j] == kept[i];
                assert(all_dbs[j].store.wf());
            }
            assert forall|a: int, b: int| 0 <= a < b < kept.len() implies (#[trigger] kept[a]).id
                != (#[trigger] kept[b]).id by {
                let (i, j) = choose|i: int, j: int|
                    0 <= i < j < all_dbs.len() && all_dbs[i] == kept[a] && all_dbs[j] == kept[b];
                assert(all_dbs[i].id != all_dbs[j].id);
            }
        }
        Ok(())
    }
}

} // verus!
