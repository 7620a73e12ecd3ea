use rdb::request::{
    ConnectError, ConnectReply, ConnectRequest, Message, OperateRequest, OperateResult, Wire,
};
use rdb::server::{
    Client, Config, DataPath, FileId, Incoming, Level, Located, Server, SessionEnd, Step,
};
use rdb::store::kv::DataStore;
use rdb::store::value::Value;
use rdb::user::user::User;

fn s(x: &str) -> String {
    x.to_string()
}

fn users() -> Vec<User> {
    let mut table = Vec::new();
    User::register(&mut table, s("root"), s("123456"), s("3"), 50).unwrap();
    User::register(&mut table, s("reader"), s("read-only"), s("0"), 50).unwrap();
    User::register(&mut table, s("writer"), s("writer_1"), s("1"), 50).unwrap();
    User::register(&mut table, s("admin"), s("admin_22"), s("2"), 50).unwrap();
    table
}

fn hello(user: &str, password: &str, path: &str) -> Vec<u8> {
    ConnectRequest { db_path: s(path), user_name: s(user), password: s(password) }.to_bytes()
}

fn file(dev: u64, ino: u64, path: &str) -> Option<Located> {
    Some(Located { id: FileId { dev, ino }, path: s(path), bytes: Vec::new() })
}

fn ask(server: &mut Server, address: &str, users: &mut Vec<User>, request: OperateRequest) -> Step {
    server.accept_request(&s(address), Incoming::Frame(request.to_bytes()), users, 50)
}

fn answer(step: Step) -> OperateResult {
    match step {
        Step::Send(buf) => Message::<OperateResult>::from_frame(&buf).unwrap().into_inner(),
        other => panic!("expected a reply, got {:?}", other),
    }
}

fn empty_store() -> DataStore {
    match DataStore::open("x", Vec::new()) {
        Ok(db) => db,
        Err(e) => panic!("{:?}", e),
    }
}

#[test]
fn wrong_password_is_refused_and_grants_nothing() {
    let mut server = Server::new(Config::default());
    let table = users();
    let reply = server.handle_connection(
        &hello("root", "wrong", "default.data"),
        &table,
        s("10.0.0.1:1"),
        file(1, 1, "./data/default.data"),
    );
    assert_eq!(reply, ConnectReply::Error(ConnectError::PasswordError));
    assert!(server.dbs.is_empty());
    assert!(server.clients.is_empty());
    // the frame that answers it is the error, and the session is unknown afterwards
    assert_eq!(reply.to_bytes(), vec![1, 0, 0, 0, 2, 0, 0, 0]);
    let mut table = table;
    assert_eq!(
        ask(&mut server, "10.0.0.1:1", &mut table, OperateRequest::Compact),
        Step::Close(SessionEnd::Broken)
    );
}

#[test]
fn handshake_errors_come_in_order() {
    let mut server = Server::new(Config::default());
    let table = users();
    let a = s("10.0.0.1:1");
    assert_eq!(
        server.handle_connection(&[1, 2, 3], &table, a.clone(), None),
        ConnectReply::Error(ConnectError::RequestError)
    );
    assert_eq!(
        server.handle_connection(&hello("nobody", "x", "f"), &table, a.clone(), None),
        ConnectReply::Error(ConnectError::UserNotFound)
    );
    assert_eq!(
        server.handle_connection(&hello("root", "123456", "f"), &table, a.clone(), None),
        ConnectReply::Error(ConnectError::PathError)
    );
    let broken = Some(Located { id: FileId { dev: 1, ino: 2 }, path: s("f"), bytes: vec![1, 2, 3] });
    assert_eq!(
        server.handle_connection(&hello("root", "123456", "f"), &table, a.clone(), broken),
        ConnectReply::Error(ConnectError::OpenFileError)
    );
    let broken_table = vec![User::stored(s("x"), s("!!!not base64"), s("1"))];
    assert_eq!(
        server.handle_connection(&hello("x", "y", "f"), &broken_table, a.clone(), None),
        ConnectReply::Error(ConnectError::ServerError)
    );
    assert!(server.dbs.is_empty() && server.clients.is_empty());
    assert_eq!(
        server.handle_connection(&hello("root", "123456", "f"), &table, a, file(1, 2, "./data/f")),
        ConnectReply::Success
    );
    assert_eq!(server.dbs.len(), 1);
    assert_eq!(server.clients.len(), 1);
    assert_eq!(server.clients[0].level, Level::SuperAdmin);
    assert_eq!(server.clients[0].set_timeout, 300);
    assert_eq!(Server::authenticate(&[0], &table).err(), Some(ConnectError::RequestError));
    let (request, level) = Server::authenticate(&hello("writer", "writer_1", "f"), &table).unwrap();
    assert_eq!(request.db_path, "f");
    assert_eq!(level, Level::ReadWrite);
}

#[test]
fn two_paths_to_one_file_share_one_store() {
    let mut server = Server::new(Config::default());
    let mut table = users();
    assert_eq!(
        server.handle_connection(
            &hello("writer", "writer_1", "a.data"),
            &table,
            s("10.0.0.1:1"),
            file(7, 9, "./data/a.data"),
        ),
        ConnectReply::Success
    );
    assert_eq!(
        server.handle_connection(
            &hello("reader", "read-only", "./sub/../a.data"),
            &table,
            s("10.0.0.2:1"),
            file(7, 9, "./data/sub/../a.data"),
        ),
        ConnectReply::Success
    );
    assert_eq!(server.dbs.len(), 1);
    assert_eq!(server.compare(FileId { dev: 7, ino: 9 }), DataPath::Exists(0));
    assert_eq!(server.compare(FileId { dev: 7, ino: 8 }), DataPath::Missing);
    let add = OperateRequest::Add { key: s("k"), value: Value::Int32(5) };
    assert_eq!(answer(ask(&mut server, "10.0.0.1:1", &mut table, add)), OperateResult::Success);
    let get = OperateRequest::Get { key: s("k") };
    assert_eq!(
        answer(ask(&mut server, "10.0.0.2:1", &mut table, get)),
        OperateResult::Found(Value::Int32(5))
    );
    // a third session on another file has a store of its own
    assert_eq!(
        server.handle_connection(
            &hello("root", "123456", "b.data"),
            &table,
            s("10.0.0.3:1"),
            file(7, 10, "./data/b.data"),
        ),
        ConnectReply::Success
    );
    assert_eq!(server.dbs.len(), 2);
    assert_eq!(
        answer(ask(&mut server, "10.0.0.3:1", &mut table, OperateRequest::Get { key: s("k") })),
        OperateResult::KeyNotFound
    );
}

#[test]
fn operations_of_two_sessions_form_one_sequence() {
    let mut server = Server::new(Config::default());
    let mut table = users();
    for (i, user) in [("writer", "writer_1"), ("admin", "admin_22")].iter().enumerate() {
        assert_eq!(
            server.handle_connection(
                &hello(user.0, user.1, "a"),
                &table,
                format!("c{}", i),
                file(1, 1, "a"),
            ),
            ConnectReply::Success
        );
    }
    let add = |k: &str, v: i32| OperateRequest::Add { key: s(k), value: Value::Int32(v) };
    assert_eq!(answer(ask(&mut server, "c0", &mut table, add("k", 1))), OperateResult::Success);
    assert_eq!(answer(ask(&mut server, "c1", &mut table, add("k", 2))), OperateResult::Success);
    assert_eq!(
        answer(ask(&mut server, "c0", &mut table, OperateRequest::Get { key: s("k") })),
        OperateResult::Found(Value::Int32(2))
    );
    // only one of two deletes succeeds
    let delete = OperateRequest::Delete { key: s("k") };
    assert_eq!(answer(ask(&mut server, "c0", &mut table, delete.clone())), OperateResult::Success);
    assert_eq!(answer(ask(&mut server, "c1", &mut table, delete)), OperateResult::KeyNotFound);
}

#[test]
fn read_only_session_cannot_add() {
    let client = Client::new(s("a"), FileId { dev: 0, ino: 0 }, Level::ReadOnly, 10);
    let mut db = empty_store();
    let mut table = users();
    let before = db.log().clone();
    let r = client.match_command(
        OperateRequest::Add { key: s("k"), value: Value::Null },
        &mut db,
        &mut table,
        50,
    );
    assert_eq!(r, Ok(OperateResult::PermissionDenied));
    assert_eq!(db.log(), &before);
    assert_eq!(db.len(), 0);
}

#[test]
fn tiers_are_monotonic() {
    let levels = [Level::ReadOnly, Level::ReadWrite, Level::Admin, Level::SuperAdmin];
    let requests = vec![
        OperateRequest::Get { key: s("k") },
        OperateRequest::GetType { key: s("k") },
        OperateRequest::Add { key: s("k"), value: Value::Null },
        OperateRequest::Delete { key: s("k") },
        OperateRequest::Compact,
        OperateRequest::CreateUser { name: s("nn"), password: s("pppp"), level: s("0") },
        OperateRequest::DeleteUser { name: s("nn") },
    ];
    let needed = [0u8, 0, 1, 1, 1, 3, 3];
    for (request, need) in requests.iter().zip(needed.iter()) {
        assert_eq!(Level::required_for(request).rank_of(), *need);
        for (i, level) in levels.iter().enumerate() {
            let client = Client::new(s("a"), FileId { dev: 0, ino: 0 }, *level, 10);
            let mut db = empty_store();
            db.add(s("k"), Value::Int32(1)).unwrap();
            let mut table = users();
            let r = client.match_command(request.clone(), &mut db, &mut table, 50).unwrap();
            let denied = r == OperateResult::PermissionDenied;
            assert_eq!(denied, (i as u8) < *need);
            assert_eq!(level.at_least(Level::required_for(request)), !denied);
        }
    }
    assert_eq!(Level::of(&s("0")), Level::ReadOnly);
    assert_eq!(Level::of(&s("1")), Level::ReadWrite);
    assert_eq!(Level::of(&s("2")), Level::Admin);
    assert_eq!(Level::of(&s("3")), Level::SuperAdmin);
    assert_eq!(Level::of(&s("9")), Level::ReadOnly);
    assert!(Level::Admin.at_least(Level::ReadWrite));
    assert!(!Level::ReadWrite.at_least(Level::Admin));
}

#[test]
fn session_answers_each_request() {
    let client = Client::new(s("a"), FileId { dev: 0, ino: 0 }, Level::SuperAdmin, 10);
    let mut db = empty_store();
    let mut table = users();
    let mut run = |r: OperateRequest| client.match_command(r, &mut db, &mut table, 50);
    assert_eq!(run(OperateRequest::Get { key: s("k") }), Ok(OperateResult::KeyNotFound));
    assert_eq!(
        run(OperateRequest::Add { key: s("k"), value: Value::Int64(7) }),
        Ok(OperateResult::Success)
    );
    assert_eq!(run(OperateRequest::Get { key: s("k") }), Ok(OperateResult::Found(Value::Int64(7))));
    assert_eq!(run(OperateRequest::GetType { key: s("k") }), Ok(OperateResult::Type(s("Long"))));
    assert_eq!(run(OperateRequest::GetType { key: s("q") }), Ok(OperateResult::KeyNotFound));
    assert_eq!(run(OperateRequest::Compact), Ok(OperateResult::Success));
    assert_eq!(run(OperateRequest::Delete { key: s("k") }), Ok(OperateResult::Success));
    assert_eq!(run(OperateRequest::Delete { key: s("k") }), Ok(OperateResult::KeyNotFound));
    assert_eq!(run(OperateRequest::Open { path: s("p") }), Ok(OperateResult::Failure));
    assert_eq!(
        run(OperateRequest::CreateUser { name: s("newbie"), password: s("secret"), level: s("1") }),
        Ok(OperateResult::Success)
    );
    assert_eq!(
        run(OperateRequest::CreateUser { name: s("newbie"), password: s("secret"), level: s("1") }),
        Ok(OperateResult::Failure)
    );
    assert_eq!(run(OperateRequest::DeleteUser { name: s("newbie") }), Ok(OperateResult::Success));
    assert_eq!(run(OperateRequest::DeleteUser { name: s("newbie") }), Ok(OperateResult::Failure));
    assert_eq!(run(OperateRequest::Quit), Err(rdb::error::RorError::Disconnect));
}

#[test]
fn session_counts_idle_polls_and_times_out() {
    let mut client = Client::new(s("a"), FileId { dev: 0, ino: 0 }, Level::ReadWrite, 2);
    let mut db = empty_store();
    let mut table = users();
    assert_eq!(client.handle_client(), None);
    assert_eq!(client.accept_request(Incoming::Idle, &mut db, &mut table, 50), Step::Wait);
    assert_eq!(client.timeout, 1);
    assert_eq!(client.handle_client(), None);
    assert_eq!(client.accept_request(Incoming::Idle, &mut db, &mut table, 50), Step::Wait);
    assert_eq!(client.handle_client(), Some(SessionEnd::Timeout));
    // any frame resets the count
    let step = client.accept_request(
        Incoming::Frame(OperateRequest::Compact.to_bytes()),
        &mut db,
        &mut table,
        50,
    );
    assert_eq!(answer(step), OperateResult::Success);
    assert_eq!(client.timeout, 0);
    assert_eq!(client.accept_request(Incoming::Idle, &mut db, &mut table, 50), Step::Wait);
    assert_eq!(client.accept_request(Incoming::Partial, &mut db, &mut table, 50), Step::Wait);
    assert_eq!(client.timeout, 0);
    // an undecodable body is answered with Failure and the session goes on
    let step = client.accept_request(Incoming::Frame(vec![42]), &mut db, &mut table, 50);
    assert_eq!(answer(step), OperateResult::Failure);
    assert_eq!(
        client.accept_request(Incoming::Frame(OperateRequest::Quit.to_bytes()), &mut db, &mut table, 50),
        Step::Close(SessionEnd::Disconnected)
    );
    assert_eq!(
        client.accept_request(Incoming::Broken, &mut db, &mut table, 50),
        Step::Close(SessionEnd::Broken)
    );
    client.timeout = u64::MAX;
    assert_eq!(client.accept_request(Incoming::Idle, &mut db, &mut table, 50), Step::Wait);
    assert_eq!(client.timeout, u64::MAX);
    assert_eq!(Client::reply(OperateResult::Success), vec![0, 0, 0, 0, 0, 0, 0, 4, 2, 0, 0, 0]);
}

#[test]
fn refresh_forgets_finished_sessions_and_closes_unused_stores() {
    let mut server = Server::new(Config::default());
    let table = users();
    for (i, ino) in [1u64, 1, 2].iter().enumerate() {
        assert_eq!(
            server.handle_connection(
                &hello("root", "123456", "f"),
                &table,
                format!("c{}", i),
                file(0, *ino, "f"),
            ),
            ConnectReply::Success
        );
    }
    assert_eq!((server.dbs.len(), server.clients.len()), (2, 3));
    assert!(server.refresh(&vec![s("c0")]).is_ok());
    assert_eq!((server.dbs.len(), server.clients.len()), (2, 2));
    assert!(server.refresh(&vec![s("c2"), s("nobody")]).is_ok());
    assert_eq!((server.dbs.len(), server.clients.len()), (1, 1));
    assert_eq!(server.clients[0].address, "c1");
    assert_eq!(server.dbs[0].id, FileId { dev: 0, ino: 1 });
    assert!(server.refresh(&vec![s("c1")]).is_ok());
    assert_eq!((server.dbs.len(), server.clients.len()), (0, 0));
}

#[test]
fn a_new_session_takes_the_place_of_one_at_its_address() {
    let mut server = Server::new(Config::default());
    server.new_client(Client::new(s("a"), FileId { dev: 0, ino: 1 }, Level::ReadOnly, 5));
    server.new_client(Client::new(s("b"), FileId { dev: 0, ino: 1 }, Level::ReadOnly, 5));
    server.new_client(Client::new(s("a"), FileId { dev: 0, ino: 2 }, Level::Admin, 5));
    assert_eq!(server.clients.len(), 2);
    assert_eq!(server.clients[0].db, FileId { dev: 0, ino: 2 });
    assert_eq!(server.clients[0].level, Level::Admin);
    assert_eq!(server.open_new_db(s("p"), FileId { dev: 0, ino: 1 }, Vec::new()), Ok(0));
    assert_eq!(server.open_new_db(s("q"), FileId { dev: 0, ino: 1 }, vec![1]), Ok(0));
    assert!(server.open_new_db(s("q"), FileId { dev: 0, ino: 3 }, vec![1]).is_err());
    assert_eq!(server.dbs.len(), 1);
    let config = Config::default();
    assert_eq!(config.name, "Default server");
    assert_eq!(config.ip, "127.0.0.1");
    assert_eq!(config.port, "11451");
    assert_eq!(config.data_path, "./data/");
    assert_eq!((config.timeout, config.repl, config.auto_refresh), (300, false, 20));
}
