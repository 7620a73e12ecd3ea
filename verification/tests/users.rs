use rdb::user::snowflake::{timestamp, Snowflake, INIT_EPOCH};
use rdb::user::user::{char_count, Config, User};
use rdb::user::user_error::UserError;

fn s(x: &str) -> String {
    x.to_string()
}

#[test]
fn register_then_login() {
    let mut table = Vec::new();
    assert_eq!(User::register(&mut table, s("root"), s("123456"), s("3"), 50), Ok(()));
    assert_eq!(table.len(), 1);
    // the password is stored as unpadded base64
    assert_eq!(table[0].password(), "MTIzNDU2");
    assert_eq!(table[0].name(), "root");
    let user = User::login(&table, s("root"), s("123456")).unwrap();
    assert_eq!(user.password(), "123456");
    assert_eq!(user.level, "3");
    assert_eq!(user.level(), "3");
    assert_eq!(User::login(&table, s("root"), s("12345")), Err(UserError::WrongPassWord));
    assert_eq!(User::login(&table, s("toor"), s("123456")), Err(UserError::UserNotFound(s("toor"))));
}

#[test]
fn register_checks_in_order() {
    let mut table = Vec::new();
    let mut reg = |n: &str, p: &str, l: &str, max: u16| User::register(&mut table, s(n), s(p), s(l), max);
    assert_eq!(reg("x", "abc", "9", 50), Err(UserError::PassWordFormatError(s("abc"))));
    assert_eq!(reg("x", "has space", "9", 50), Err(UserError::PassWordFormatError(s("has space"))));
    assert_eq!(
        reg("x", "seventeen_letters", "9", 50),
        Err(UserError::PassWordFormatError(s("seventeen_letters")))
    );
    assert_eq!(reg("x", "good-pass_1", "9", 50), Err(UserError::NameLengthError(1)));
    assert_eq!(
        reg("twenty-one-characters", "good", "9", 50),
        Err(UserError::NameLengthError(21))
    );
    assert_eq!(reg("né", "good", "9", 50), Err(UserError::UnknownLevel(s("9"))));
    assert_eq!(reg("né", "good", "0", 50), Ok(()));
    assert_eq!(reg("né", "other", "1", 50), Err(UserError::UserNameExists(s("né"))));
    assert_eq!(reg("u2", "good", "1", 1), Ok(()));
    // the table is full once it holds more than the limit
    assert_eq!(reg("u3", "good", "1", 1), Err(UserError::UserLimit));
    assert_eq!(reg("u3", "good", "1", 0), Ok(()));
    assert_eq!(table.len(), 3);
}

#[test]
fn register_checked_takes_what_the_pattern_said() {
    let mut table = Vec::new();
    assert_eq!(
        User::register_checked(&mut table, s("name"), s("pass"), s("1"), 5, Ok(false)),
        Err(UserError::PassWordFormatError(s("pass")))
    );
    let broken = regex::Regex::new("(").unwrap_err();
    assert_eq!(
        User::register_checked(&mut table, s("name"), s("pass"), s("1"), 5, Err(broken)),
        Err(UserError::RegexError)
    );
    assert!(table.is_empty());
    assert_eq!(User::register_checked(&mut table, s("name"), s("pass"), s("1"), 5, Ok(true)), Ok(()));
    assert_eq!(table[0].password(), "cGFzcw");
}

#[test]
fn search_decodes_the_stored_password() {
    let table = vec![
        User::stored(s("a"), s("cGFzcw"), s("1")),
        User::stored(s("b"), s("not base64!"), s("1")),
        User::stored(s("c"), s("/w"), s("1")),
        User::stored(s("a"), s("b3RoZXI"), s("2")),
    ];
    let a = User::search(&table, s("a")).unwrap();
    assert_eq!((a.name().as_str(), a.password().as_str(), a.level.as_str()), ("a", "pass", "1"));
    assert_eq!(User::search(&table, s("b")), Err(UserError::Base64Error));
    assert_eq!(User::search(&table, s("c")), Err(UserError::DecodeUtf8Error));
    assert_eq!(User::search(&table, s("d")), Err(UserError::UserNotFound(s("d"))));
}

#[test]
fn delete_removes_the_first_of_the_name() {
    let mut table = vec![
        User::stored(s("a"), s("cGFzcw"), s("1")),
        User::stored(s("b"), s("cGFzcw"), s("1")),
        User::stored(s("a"), s("cGFzcw"), s("2")),
    ];
    assert_eq!(User::delete(&mut table, s("a")), Ok(()));
    assert_eq!(table.len(), 2);
    assert_eq!((table[0].name().as_str(), table[1].level.as_str()), ("b", "2"));
    assert_eq!(User::delete(&mut table, s("z")), Err(UserError::UserNotFound(s("z"))));
    assert_eq!(table.len(), 2);
    assert!(User::is_level(&s("0")) && User::is_level(&s("3")) && !User::is_level(&s("4")));
    assert_eq!(char_count("héé"), 3);
    let config = Config::default();
    assert_eq!((config.path.as_str(), config.user_max), ("users.json", 50));
}

#[test]
fn snowflake_packs_time_ids_and_counter() {
    let start = (INIT_EPOCH + 1000) as u128;
    let mut flake = Snowflake::new(3, 2, Some(start)).unwrap();
    let t = INIT_EPOCH + 1000;
    // in the millisecond of the last id the counter goes up
    let id = flake.generate_at(t).unwrap();
    assert_eq!(id, ((1000i64 << 22) | (2 << 17) | (3 << 12) | 1).to_string());
    let id = flake.generate_at(t).unwrap();
    assert_eq!(id, ((1000i64 << 22) | (2 << 17) | (3 << 12) | 2).to_string());
    // in a later one it starts again
    let id = flake.generate_at(t + 5).unwrap();
    assert_eq!(id, ((1005i64 << 22) | (2 << 17) | (3 << 12)).to_string());
    assert_eq!(id, "4215549952");
    assert_eq!(flake.generate_at(t + 4), Err(UserError::ClockBack));
    assert_eq!(flake.generate_at(t + 5).unwrap(), "4215549953");
}

#[test]
fn snowflake_checks_worker_and_clock() {
    assert_eq!(Snowflake::new(-1, 0, Some(0)), Err(UserError::WorkerIdLengthError));
    assert_eq!(Snowflake::new(32, 0, Some(0)), Err(UserError::WorkerIdLengthError));
    assert_eq!(Snowflake::new(0, 0, None), Err(UserError::SystemTimeError));
    assert_eq!(Snowflake::new(0, 0, Some(u128::MAX)), Err(UserError::TryFromIntError));
    assert_eq!(timestamp(Some(5)), Ok(5));
    assert_eq!(timestamp(Some(i64::MAX as u128 + 1)), Err(UserError::TryFromIntError));
    let now = std::time::SystemTime::now()
        .duration_since(std::time::UNIX_EPOCH)
        .ok()
        .map(|d| d.as_millis());
    let mut flake = Snowflake::new(1, 1, now).unwrap();
    let a: i64 = flake.generate(now).unwrap().parse().unwrap();
    let b: i64 = flake.generate(now).unwrap().parse().unwrap();
    assert_eq!(b, a + 1);
    assert_eq!((a >> 12) & 31, 1);
    assert_eq!((a >> 17) & 31, 1);
    assert_eq!(flake.generate(None), Err(UserError::SystemTimeError));
    assert_eq!(flake.generate(Some(0)), Err(UserError::ClockBack));
}
