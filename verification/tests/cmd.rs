use rdb::cmd::cmd_error::CmdError;
use rdb::cmd::lexer::{collect_until, digit, lex, Run};
use rdb::cmd::parser::Parser;
use rdb::cmd::statement::{List, Statement, TokenExt, UserCmd, UserInfo, ValueP, ValueType};
use rdb::cmd::token::arg::Arg;
use rdb::cmd::token::command::Command;
use rdb::cmd::token::datatype::DataType;
use rdb::cmd::token::symbol::{symbol_from, to_symbol, Symbol, SymbolExtChar};
use rdb::cmd::token::token::{SqlCharExt, StringExt, Token};
use rdb::error::RorError;
use rdb::repl::{scalar_value, to_value, LocalRepl, Outgoing, RemoteRepl, Reply};
use rdb::request::{OperateRequest, OperateResult};
use rdb::store::kv_error::KvError;
use rdb::store::value::Value;
use rdb::user::user::User;

fn s(x: &str) -> String {
    x.to_string()
}

fn id(x: &str) -> Token {
    Token::Identifier(s(x))
}

fn parse(line: &str) -> Result<Statement, CmdError> {
    Parser::new().parse(line)
}

#[test]
fn lexer_tells_the_kinds_of_tokens() {
    assert_eq!(
        lex("add int key 12.5 'two words' TRUE values [x, y]"),
        vec![
            Token::Command(Command::Add),
            Token::DataType(DataType::Int32),
            id("key"),
            Token::Number(s("12.5")),
            id("two words"),
            Token::Bool(true),
            Token::Arg(Arg::Values),
            Token::Symbol(Symbol::LeftBracket),
            id("x"),
            Token::Symbol(Symbol::Comma),
            id("y"),
            Token::Symbol(Symbol::RightBracket),
        ]
    );
    assert_eq!(lex(""), vec![]);
    assert_eq!(lex(" \t\r\n"), vec![]);
    assert_eq!(lex("\"unclosed"), vec![id("unclosed")]);
    assert_eq!(lex("'a\"b' c"), vec![id("a\"b"), id("c")]);
    assert_eq!(lex("falſe False nope"), vec![Token::Bool(false), Token::Bool(false), id("nope")]);
    assert_eq!(lex("héllo_1 x"), vec![id("héllo_1"), id("x")]);
    assert_eq!(lex("1a"), vec![Token::Number(s("1")), id("a")]);
}

#[test]
fn lexer_reads_symbols_as_they_come() {
    let sym = |x: Symbol| Token::Symbol(x);
    assert_eq!(lex("<= >= ="), vec![
        sym(Symbol::LessThanOrEqual),
        sym(Symbol::GreaterThanOrEqual),
        sym(Symbol::Equal)
    ]);
    // `<` and `>` without `=` take the character after them away
    assert_eq!(lex("<5"), vec![sym(Symbol::LessThan)]);
    assert_eq!(lex("a>b c"), vec![id("a"), sym(Symbol::GreaterThan), id("c")]);
    assert_eq!(lex("<"), vec![sym(Symbol::LessThan)]);
    assert_eq!(lex("(,)"), vec![sym(Symbol::LeftParen), sym(Symbol::Comma), sym(Symbol::RightParen)]);
    // a character that starts nothing is skipped
    assert_eq!(lex("a ! b # c"), vec![id("a"), id("b"), id("c")]);
    assert_eq!(lex("!="), vec![sym(Symbol::Equal)]);
}

#[test]
fn symbols_and_words() {
    assert_eq!(to_symbol(","), Some(Symbol::Comma));
    assert_eq!(to_symbol("!="), Some(Symbol::NotEqual));
    assert_eq!(to_symbol("<="), Some(Symbol::LessThanOrEqual));
    assert_eq!(to_symbol(">="), Some(Symbol::GreaterThanOrEqual));
    assert_eq!(to_symbol("]"), Some(Symbol::RightBracket));
    assert_eq!(to_symbol("=="), None);
    assert_eq!(to_symbol(""), None);
    assert_eq!(to_symbol("a"), None);
    assert_eq!(symbol_from('!', false), None);
    assert_eq!(symbol_from('<', true), Some(Symbol::LessThanOrEqual));
    assert!(Symbol::Comma.is_operator() && Symbol::RightParen.is_operator());
    assert!(!Symbol::Equal.is_operator() && !Symbol::Semicolon.is_operator());
    assert!(Symbol::NotEqual.is_comparator() && Symbol::GreaterThan.is_comparator());
    assert!(!Symbol::Plus.is_comparator() && !Symbol::LeftBracket.is_comparator());
    assert_eq!(Symbol::GreaterThanOrEqual.to_text(), ">=");
    assert!(';'.is_symbol() && '<'.is_symbol() && !'!'.is_symbol() && !'a'.is_symbol());
    let chars: Vec<char> = "a<=b<".chars().collect();
    assert!('<'.has_next(&chars, 1));
    assert!(!'<'.has_next(&chars, 4));
    assert!(!'a'.has_next(&chars, 0));
    assert_eq!(s("i32").as_datatype(), Some(DataType::Int32));
    assert_eq!(s("long").as_datatype(), Some(DataType::Int64));
    assert_eq!(format!("f{}", 32).as_datatype(), Some(DataType::Float32));
    assert_eq!(s("double").as_datatype(), Some(DataType::Float64));
    assert_eq!(s("array").as_datatype(), Some(DataType::Array));
    assert_eq!(s("Int").as_datatype(), None);
    assert_eq!(s("typeof").as_command(), Some(Command::TypeOf));
    assert_eq!(s("create").as_command(), Some(Command::Create));
    assert_eq!(s("drop").as_command(), None);
    assert_eq!(s(">=").as_symbol(), Some(Symbol::GreaterThanOrEqual));
    assert_eq!(s("entries").as_arg(), Some(Arg::Entries));
    assert_eq!(s("tRuE").as_bool(), Some(true));
    assert_eq!(s("0").as_bool(), None);
    assert_eq!(Token::Bool(false).to_text(), "FALSE");
    assert_eq!(Token::Command(Command::Compact).to_text(), "compact");
    assert_eq!(Token::DataType(DataType::Float64).to_text(), "double");
    assert_eq!(Token::Arg(Arg::Values).to_text(), "values");
    assert!(digit('0') && digit('9') && !digit('a') && !digit('٣'));
    let chars: Vec<char> = "ab_1 c".chars().collect();
    assert_eq!(collect_until(&chars, 0, Run::Word), (s("ab_1"), 4));
    assert_eq!(collect_until(&chars, 0, Run::Quoted('1')), (s("ab_"), 3));
    assert_eq!(collect_until(&chars, 3, Run::Number), (s("1"), 4));
    assert_eq!(collect_until(&chars, 6, Run::Word), (s(""), 6));
}

#[test]
fn parser_reads_each_statement() {
    assert_eq!(parse("open 'data/a.db'"), Ok(Statement::Open { file: s("data/a.db") }));
    assert_eq!(parse("get k"), Ok(Statement::Get { key: s("k") }));
    assert_eq!(parse("delete k"), Ok(Statement::Delete { key: s("k") }));
    assert_eq!(parse("typeof k"), Ok(Statement::TypeOf { key: s("k") }));
    assert_eq!(parse("compact"), Ok(Statement::Compact));
    assert_eq!(parse("quit now"), Ok(Statement::Quit));
    assert_eq!(parse("list values"), Ok(Statement::List { list: List::Values }));
    assert_eq!(parse("list entries"), Ok(Statement::List { list: List::Entries }));
    assert_eq!(
        parse("add k v"),
        Ok(Statement::Add { key: s("k"), value: ValueP::Identifier(s("v")), datatype: ValueType::String })
    );
    assert_eq!(
        parse("add long k 12"),
        Ok(Statement::Add { key: s("k"), value: ValueP::Number(s("12")), datatype: ValueType::Int64 })
    );
    assert_eq!(
        parse("add bool k (true)"),
        Ok(Statement::Add { key: s("k"), value: ValueP::Bool(true), datatype: ValueType::Bool })
    );
    assert_eq!(
        parse("add array(array(int)) k [1, 2 3]"),
        Ok(Statement::Add {
            key: s("k"),
            value: ValueP::Array(Box::new(vec![
                ValueP::Number(s("1")),
                ValueP::Number(s("2")),
                ValueP::Number(s("3")),
            ])),
            datatype: ValueType::Array(Box::new(ValueType::Array(Box::new(ValueType::Int32)))),
        })
    );
    assert_eq!(
        parse("user create (ann, secret, '1')"),
        Ok(Statement::User {
            cmd: UserCmd::Create { info: UserInfo { name: s("ann"), password: s("secret"), level: s("1") } }
        })
    );
}

#[test]
fn parser_reports_what_is_missing() {
    assert_eq!(parse(""), Err(CmdError::MissingStatement));
    assert_eq!(parse("k"), Err(CmdError::UnexpectedToken(id("k"))));
    assert_eq!(parse("create"), Err(CmdError::UnexpectedToken(Token::Command(Command::Create))));
    assert_eq!(parse("open"), Err(CmdError::MissingPath));
    assert_eq!(parse("open 12"), Err(CmdError::MissingPath));
    assert_eq!(parse("get"), Err(CmdError::MissingKey));
    assert_eq!(parse("get 12"), Err(CmdError::MissingKey));
    assert_eq!(parse("add int"), Err(CmdError::MissingKey));
    assert_eq!(parse("add int k"), Err(CmdError::MissingValue));
    assert_eq!(parse("add int k get"), Err(CmdError::MissingValue));
    assert_eq!(
        parse("add k (v"),
        Err(CmdError::MissingToken(Token::Symbol(Symbol::RightParen)))
    );
    assert_eq!(parse("add array"), Err(CmdError::MissingToken(Token::Symbol(Symbol::LeftParen))));
    assert_eq!(
        parse("add array(int"),
        Err(CmdError::MissingToken(Token::Symbol(Symbol::RightParen)))
    );
    assert_eq!(
        parse("add array(int) k"),
        Err(CmdError::MissingToken(Token::Symbol(Symbol::LeftBracket)))
    );
    assert_eq!(parse("add array(int) k [1, 2"), Err(CmdError::MissingValue));
    assert_eq!(parse("add array(int) k [1, get]"), Err(CmdError::MissingValue));
    assert_eq!(parse("list"), Err(CmdError::MissingArg));
    assert_eq!(parse("list k"), Err(CmdError::UnexpectedToken(id("k"))));
    assert_eq!(parse("user"), Err(CmdError::MissingSubCmd));
    assert_eq!(parse("user get"), Err(CmdError::UnexpectedToken(Token::Command(Command::Get))));
    assert_eq!(parse("user create"), Err(CmdError::MissingToken(Token::Symbol(Symbol::LeftParen))));
    assert_eq!(parse("user create (a, b)"), Err(CmdError::ParameterError(s("create user"))));
    assert_eq!(parse("user create (a, 1, b)"), Err(CmdError::MissingValue));
    assert_eq!(parse("user create (a b c"), Err(CmdError::MissingValue));
    // `user delete` is not carried out
    assert_eq!(parse("user delete ann"), Err(CmdError::MissingArg));
    assert_eq!(parse("user delete"), Err(CmdError::MissingValue));
    assert_eq!(CmdError::MissingPath.message(), "Missing path");
    assert_eq!(CmdError::UnexpectedToken(id("k")).message(), "Unexpected token: 'k'");
    assert_eq!(
        CmdError::MissingToken(Token::Symbol(Symbol::LeftParen)).message(),
        "Missing token: '('"
    );
    assert_eq!(
        CmdError::ParameterError(s("create user")).message(),
        "Incorrect argument to command 'create user'"
    );
}

#[test]
fn parser_takes_any_token_where_one_is_due() {
    // the token after an opening bracket of a nested array is taken for the bracket
    assert_eq!(
        parse("add array(array(int)) k [[1 2] 3]"),
        Ok(Statement::Add {
            key: s("k"),
            value: ValueP::Array(Box::new(vec![
                ValueP::Array(Box::new(vec![ValueP::Number(s("2"))])),
                ValueP::Number(s("3")),
            ])),
            datatype: ValueType::Array(Box::new(ValueType::Array(Box::new(ValueType::Int32)))),
        })
    );
    assert_eq!(
        parse("add array int int ) k [ ]"),
        Ok(Statement::Add {
            key: s("k"),
            value: ValueP::Array(Box::new(vec![])),
            datatype: ValueType::Array(Box::new(ValueType::Int32)),
        })
    );
}

#[test]
fn written_values_and_types_have_their_texts() {
    assert_eq!(ValueP::Identifier(s("a b")).get_str(), "a b");
    assert_eq!(ValueP::Number(s("1.5")).get_str(), "1.5");
    assert_eq!(ValueP::Bool(true).get_str(), "true");
    assert_eq!(ValueP::Bool(false).get_str(), "false");
    assert_eq!(
        ValueP::Array(Box::new(vec![ValueP::Number(s("1")), ValueP::Bool(true)])).get_str(),
        "[Number(\"1\"), Bool(true)]"
    );
    assert_eq!(ValueType::Int32.to_text(), "int");
    assert_eq!(ValueType::Float64.to_text(), "double");
    assert_eq!(ValueType::String.to_text(), "string");
    let nested = ValueType::Array(Box::new(ValueType::Array(Box::new(ValueType::Char))));
    assert_eq!(nested.to_text(), "Array(Char)");
    assert_eq!(nested.debug_text(), "Array(Array(Char))");
    assert_eq!(nested.clone(), nested);
    assert!(!nested.is_floating());
    assert!(ValueType::Array(Box::new(ValueType::Float32)).is_floating());
    assert_eq!(Some(id("x")).to_value(), Some(ValueP::Identifier(s("x"))));
    assert_eq!(Some(Token::Number(s("1"))).to_value(), Some(ValueP::Number(s("1"))));
    assert_eq!(Some(Token::Bool(true)).to_value(), Some(ValueP::Bool(true)));
    assert_eq!(Some(Token::Arg(Arg::Values)).to_value(), None);
    assert_eq!(None::<Token>.to_value(), None);
    let v = ValueP::Array(Box::new(vec![ValueP::Identifier(s("x"))]));
    assert_eq!(v.duplicate(), v);
}

#[test]
fn to_value_gives_a_written_value_its_type() {
    let n = |x: &str| ValueP::Number(s(x));
    assert_eq!(to_value(n("12"), ValueType::Int32), Ok(Value::Int32(12)));
    assert_eq!(to_value(n("-12"), ValueType::Int64), Ok(Value::Int64(-12)));
    assert_eq!(
        to_value(n("2147483648"), ValueType::Int32),
        Err(RorError::ConvertError(s("2147483648"), ValueType::Int32))
    );
    assert_eq!(to_value(n("2147483648"), ValueType::Int64), Ok(Value::Int64(2147483648)));
    assert_eq!(to_value(n("1.5"), ValueType::Int32), Err(RorError::ConvertError(s("1.5"), ValueType::Int32)));
    assert_eq!(to_value(n("7"), ValueType::String), Ok(Value::String(s("7"))));
    assert_eq!(to_value(n("7"), ValueType::Char), Ok(Value::Char('7')));
    assert_eq!(to_value(n("77"), ValueType::Char), Err(RorError::ConvertError(s("77"), ValueType::Char)));
    assert_eq!(to_value(n("7"), ValueType::Null), Ok(Value::Null));
    // no written value is a Bool
    assert_eq!(
        to_value(ValueP::Bool(true), ValueType::Bool),
        Err(RorError::ConvertError(s("true"), ValueType::Bool))
    );
    assert_eq!(to_value(ValueP::Bool(true), ValueType::String), Ok(Value::String(s("true"))));
    let array = ValueP::Array(Box::new(vec![n("1"), ValueP::Array(Box::new(vec![n("2")]))]));
    let nested = ValueType::Array(Box::new(ValueType::Int32));
    assert_eq!(
        to_value(ValueP::Array(Box::new(vec![n("1"), n("2")])), nested.clone()),
        Ok(Value::Array(Box::new(vec![Value::Int32(1), Value::Int32(2)])))
    );
    assert!(to_value(array, nested.clone()).is_err());
    assert_eq!(to_value(n("1"), nested.clone()), Err(RorError::ConvertError(s("1"), nested)));
    assert_eq!(
        scalar_value(s("x"), ValueType::Int32, Some(5), None),
        Ok(Value::Int32(5))
    );
    assert_eq!(
        scalar_value(s("x"), ValueType::Int64, Some(5), None),
        Err(RorError::ConvertError(s("x"), ValueType::Int64))
    );
}

#[test]
fn remote_front_end_turns_lines_into_requests() {
    let repl = RemoteRepl::new(s("h"), s("1"), s("u"), s("p"), s("d"));
    assert_eq!(repl.prompt(), "h:1 > ");
    assert_eq!(repl.info.clone(), repl.info);
    assert_eq!(repl.match_command("\n"), Ok(Outgoing::Nothing));
    assert_eq!(
        repl.match_command("get k\n"),
        Ok(Outgoing::Send(OperateRequest::Get { key: s("k") }))
    );
    assert_eq!(
        repl.match_command("add int k 5"),
        Ok(Outgoing::Send(OperateRequest::Add { key: s("k"), value: Value::Int32(5) }))
    );
    assert_eq!(
        repl.match_command("add float k 5"),
        Ok(Outgoing::SendFloating {
            key: s("k"),
            value: ValueP::Number(s("5")),
            datatype: ValueType::Float32
        })
    );
    assert_eq!(
        repl.match_command("add int k x"),
        Err(RorError::ConvertError(s("x"), ValueType::Int32))
    );
    assert_eq!(
        repl.match_command("typeof k"),
        Ok(Outgoing::Send(OperateRequest::GetType { key: s("k") }))
    );
    assert_eq!(repl.match_command("delete k"), Ok(Outgoing::Send(OperateRequest::Delete { key: s("k") })));
    assert_eq!(repl.match_command("compact"), Ok(Outgoing::Send(OperateRequest::Compact)));
    assert_eq!(repl.match_command("open f"), Ok(Outgoing::Nothing));
    assert_eq!(repl.match_command("list values"), Ok(Outgoing::Nothing));
    assert_eq!(repl.match_command("quit"), Ok(Outgoing::Leave(OperateRequest::Quit)));
    assert_eq!(
        repl.match_command("user create (a, b, '1')"),
        Ok(Outgoing::Send(OperateRequest::CreateUser { name: s("a"), password: s("b"), level: s("1") }))
    );
    assert_eq!(repl.match_command("what"), Err(RorError::CmdError(CmdError::UnexpectedToken(id("what")))));
    assert_eq!(RemoteRepl::match_op_reply(&OperateResult::Found(Value::Null)), "");
    assert_eq!(RemoteRepl::match_op_reply(&OperateResult::Type(s("Int"))), "Int\n");
    assert_eq!(
        RemoteRepl::match_op_reply(&OperateResult::Success),
        "Successfully completed the request\n"
    );
    assert_eq!(RemoteRepl::match_op_reply(&OperateResult::PermissionDenied), "Permission Denied\n");
    assert_eq!(RemoteRepl::match_op_reply(&OperateResult::KeyNotFound), "Key not found\n");
    assert_eq!(
        RemoteRepl::match_op_reply(&OperateResult::Failure),
        "The request failed, possibly due to a server error\n"
    );
}

#[test]
fn local_front_end_works_on_its_store() {
    let mut repl = match LocalRepl::open("a.db", Vec::new()) {
        Ok(r) => r,
        Err(e) => panic!("{:?}", e),
    };
    let mut users: Vec<User> = Vec::new();
    assert_eq!(repl.prompt(), "a.db > ");
    let mut run = |repl: &mut LocalRepl, line: &str| repl.match_command(line, &mut users, 50);
    assert_eq!(run(&mut repl, "\n"), Ok(Reply::Nothing));
    assert_eq!(
        run(&mut repl, "add int k 5"),
        Ok(Reply::Added { key: s("k"), value: ValueP::Number(s("5")) })
    );
    assert_eq!(run(&mut repl, "get k"), Ok(Reply::Found(Value::Int32(5))));
    assert_eq!(run(&mut repl, "typeof k"), Ok(Reply::TypeName(s("Int"))));
    assert_eq!(run(&mut repl, "list values"), Ok(Reply::Values(vec![Value::Int32(5)])));
    match run(&mut repl, "list entries") {
        Ok(Reply::Entries(entries)) => {
            assert_eq!(entries.len(), 1);
            assert_eq!(entries[0].key(), "k");
        }
        other => panic!("{:?}", other),
    }
    assert_eq!(
        run(&mut repl, "add double k 5"),
        Ok(Reply::AddFloating {
            key: s("k"),
            value: ValueP::Number(s("5")),
            datatype: ValueType::Float64
        })
    );
    assert_eq!(repl.add(s("k"), Value::Float64(5f64.to_bits())), Ok(()));
    assert_eq!(run(&mut repl, "typeof k"), Ok(Reply::TypeName(s("Double"))));
    assert_eq!(run(&mut repl, "compact"), Ok(Reply::Compacted));
    assert_eq!(run(&mut repl, "delete k"), Ok(Reply::Deleted(s("k"))));
    assert_eq!(
        run(&mut repl, "delete k"),
        Err(RorError::KvError(KvError::KeyNotFound(s("k"))))
    );
    assert_eq!(run(&mut repl, "get k"), Err(RorError::KvError(KvError::KeyNotFound(s("k")))));
    assert_eq!(run(&mut repl, "open 'b.db'"), Ok(Reply::Opening(s("b.db"))));
    assert_eq!(run(&mut repl, "quit"), Ok(Reply::Quit));
    assert_eq!(run(&mut repl, "user create (ann, secret, '1')"), Ok(Reply::UserCreated(s("ann"))));
    assert!(matches!(run(&mut repl, "user create (ann, secret, '1')"), Err(RorError::UserError(_))));
    assert_eq!(run(&mut repl, "get"), Err(RorError::CmdError(CmdError::MissingKey)));
    let log = repl.database.log().clone();
    assert!(repl.opened("b.db", vec![1, 2, 3]).is_err());
    assert_eq!(repl.database.path, "a.db");
    assert_eq!(repl.opened("b.db", log), Ok(()));
    assert_eq!(repl.database.path, "b.db");
    assert!(LocalRepl::open("c", vec![0]).is_err());
}
