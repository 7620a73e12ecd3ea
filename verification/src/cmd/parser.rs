//! The parser: from tokens to a statement.
//!
//! The first token decides the statement.  Where a particular token is
//! due, any token is taken for it and only its absence is an error.  In an
//! array and in an argument list a comma after a value is optional.
use vstd::prelude::*;
use crate::cmd::cmd_error::{CmdError, CmdErrorView};
use crate::cmd::lexer::{lex, lex_spec};
use crate::cmd::statement::{
    List, Statement, StatementView, UserCmd, UserCmdView, UserInfo, UserInfoView, ValueP,
    ValuePView, ValueType, lemma_written_views, written_views,
};
use crate::cmd::token::arg::Arg;
use crate::cmd::token::command::Command;
use crate::cmd::token::datatype::DataType;
use crate::cmd::token::symbol::Symbol;
use crate::cmd::token::token::{Token, TokenView, token_views};

verus! {

/// A parser: the tokens of the line it was last given.
#[derive(Debug, PartialEq, Eq)]
pub struct Parser {
    tokens: Vec<Token>,
}

/// Where the parser stands after a token that is due at `pos`, or that
/// the token is missing.
pub open spec fn skip(tokens: Seq<TokenView>, pos: int, due: TokenView) -> core::result::Result<
    int,
    CmdErrorView,
> {
    if 0 <= pos < tokens.len() {
        Ok(pos + 1)
    } else {
        Err(CmdErrorView::MissingToken(due))
    }
}

/// Where the parser stands after an optional comma at `pos`.
pub open spec fn after_comma(tokens: Seq<TokenView>, pos: int) -> int {
    if 0 <= pos < tokens.len() && tokens[pos] == TokenView::Symbol(Symbol::Comma) {
        pos + 1
    } else {
        pos
    }
}

/// The written value at `pos`, and where it ends.
pub open spec fn p_value(tokens: Seq<TokenView>, pos: int) -> core::result::Result<
    (ValuePView, int),
    CmdErrorView,
>
    decreases tokens.len() - pos, 0nat,
{
    if pos < 0 || pos >= tokens.len() {
        Err(CmdErrorView::MissingValue)
    } else {
        match tokens[pos] {
            TokenView::Identifier(s) => Ok((ValuePView::Identifier(s), pos + 1)),
            TokenView::Number(n) => Ok((ValuePView::Number(n), pos + 1)),
            TokenView::Bool(b) => Ok((ValuePView::Bool(b), pos + 1)),
            TokenView::Symbol(Symbol::LeftParen) => match p_value(tokens, pos + 1) {
                Err(e) => Err(e),
                Ok((v, n)) => if 0 <= n < tokens.len() && tokens[n] == TokenView::Symbol(
                    Symbol::RightParen,
                ) {
                    Ok((v, n + 1))
                } else {
                    Err(CmdErrorView::MissingToken(TokenView::Symbol(Symbol::RightParen)))
                },
            },
            TokenView::Symbol(Symbol::LeftBracket) => p_array(tokens, pos + 1),
            _ => Err(CmdErrorView::MissingValue),
        }
    }
}

/// The array whose opening bracket is due at `pos`, and where it ends.
pub open spec fn p_array(tokens: Seq<TokenView>, pos: int) -> core::result::Result<
    (ValuePView, int),
    CmdErrorView,
>
    decreases tokens.len() - pos, 2nat,
{
    if pos < 0 || pos >= tokens.len() {
        Err(CmdErrorView::MissingToken(TokenView::Symbol(Symbol::LeftBracket)))
    } else {
        match p_items(tokens, pos + 1) {
            Ok((items, n)) => Ok((ValuePView::Array(items), n)),
            Err(e) => Err(e),
        }
    }
}

/// The values of an array from `pos` up to its closing bracket, and where
/// the parser stands behind the bracket.
pub open spec fn p_items(tokens: Seq<TokenView>, pos: int) -> core::result::Result<
    (Seq<ValuePView>, int),
    CmdErrorView,
>
    decreases tokens.len() - pos, 1nat,
{
    if pos < 0 || pos >= tokens.len() {
        Err(CmdErrorView::MissingValue)
    } else if tokens[pos] == TokenView::Symbol(Symbol::RightBracket) {
        Ok((Seq::empty(), pos + 1))
    } else {
        match p_value(tokens, pos) {
            Err(e) => Err(e),
            Ok((v, n)) => if n <= pos || n > tokens.len() {
                Err(CmdErrorView::MissingValue)
            } else {
                match p_items(tokens, after_comma(tokens, n)) {
                    Ok((rest, end)) => Ok((seq![v] + rest, end)),
                    Err(e) => Err(e),
                }
            },
        }
    }
}

/// The type that a scalar type word names.
pub open spec fn scalar_type(d: DataType) -> ValueType {
    match d {
        DataType::Null => ValueType::Null,
        DataType::Bool => ValueType::Bool,
        DataType::Int32 => ValueType::Int32,
        DataType::Int64 => ValueType::Int64,
        DataType::Float32 => ValueType::Float32,
        DataType::Float64 => ValueType::Float64,
        DataType::Char => ValueType::Char,
        DataType::String => ValueType::String,
        DataType::Array => ValueType::String,
    }
}

/// The type written at `pos`, and where it ends.  Where no type is
/// written the type is `String` and nothing is taken.
pub open spec fn p_datatype(tokens: Seq<TokenView>, pos: int) -> core::result::Result<
    (ValueType, int),
    CmdErrorView,
>
    decreases tokens.len() - pos,
{
    if pos < 0 || pos >= tokens.len() {
        Ok((ValueType::String, pos))
    } else {
        match tokens[pos] {
            TokenView::DataType(DataType::Array) => {
                if pos + 1 >= tokens.len() {
                    Err(CmdErrorView::MissingToken(TokenView::Symbol(Symbol::LeftParen)))
                } else {
                    match p_datatype(tokens, pos + 2) {
                        Err(e) => Err(e),
                        Ok((inner, n)) => if 0 <= n < tokens.len() {
                            Ok((ValueType::Array(Box::new(inner)), n + 1))
                        } else {
                            Err(CmdErrorView::MissingToken(TokenView::Symbol(Symbol::RightParen)))
                        },
                    }
                }
            },
            TokenView::DataType(d) => Ok((scalar_type(d), pos + 1)),
            _ => Ok((ValueType::String, pos)),
        }
    }
}

/// The key written at `pos`, and where it ends.
pub open spec fn p_key(tokens: Seq<TokenView>, pos: int) -> core::result::Result<
    (Seq<char>, int),
    CmdErrorView,
> {
    match p_value(tokens, pos) {
        Ok((ValuePView::Identifier(s), n)) => Ok((s, n)),
        _ => Err(CmdErrorView::MissingKey),
    }
}

/// The names of an argument list from `pos` up to its closing
/// parenthesis.
pub open spec fn p_names(tokens: Seq<TokenView>, pos: int) -> core::result::Result<
    (Seq<Seq<char>>, int),
    CmdErrorView,
>
    decreases tokens.len() - pos,
{
    if pos < 0 || pos >= tokens.len() {
        Err(CmdErrorView::MissingValue)
    } else {
        match tokens[pos] {
            TokenView::Symbol(Symbol::RightParen) => Ok((Seq::empty(), pos + 1)),
            TokenView::Identifier(v) => match p_names(tokens, after_comma(tokens, pos + 1)) {
                Ok((rest, end)) => Ok((seq![v] + rest, end)),
                Err(e) => Err(e),
            },
            _ => Err(CmdErrorView::MissingValue),
        }
    }
}

/// The argument list whose opening parenthesis is due at `pos`.
pub open spec fn p_str_args(tokens: Seq<TokenView>, pos: int) -> core::result::Result<
    (Seq<Seq<char>>, int),
    CmdErrorView,
> {
    if pos < 0 || pos >= tokens.len() {
        Err(CmdErrorView::MissingToken(TokenView::Symbol(Symbol::LeftParen)))
    } else {
        p_names(tokens, pos + 1)
    }
}

/// The statement that starts with `open`.
pub open spec fn p_open(tokens: Seq<TokenView>) -> core::result::Result<
    StatementView,
    CmdErrorView,
> {
    if tokens.len() > 1 && tokens[1] is Identifier {
        Ok(StatementView::Open { file: tokens[1]->Identifier_0 })
    } else {
        Err(CmdErrorView::MissingPath)
    }
}

/// The statement that starts with `add`.
pub open spec fn p_add(tokens: Seq<TokenView>) -> core::result::Result<
    StatementView,
    CmdErrorView,
> {
    match p_datatype(tokens, 1) {
        Err(e) => Err(e),
        Ok((datatype, n)) => match p_key(tokens, n) {
            Err(e) => Err(e),
            Ok((key, m)) => match (if datatype is Array {
                p_array(tokens, m)
            } else {
                p_value(tokens, m)
            }) {
                Err(e) => Err(e),
                Ok((value, _)) => Ok(StatementView::Add { key, value, datatype }),
            },
        },
    }
}

/// The statement that starts with `user`.  `user delete` is not carried
/// out by any front end and always fails.
pub open spec fn p_user(tokens: Seq<TokenView>) -> core::result::Result<
    StatementView,
    CmdErrorView,
> {
    if tokens.len() <= 1 {
        Err(CmdErrorView::MissingSubCmd)
    } else {
        match tokens[1] {
            TokenView::Command(Command::Create) => match p_str_args(tokens, 2) {
                Err(e) => Err(e),
                Ok((args, _)) => if args.len() != 3 {
                    Err(CmdErrorView::ParameterError("create user"@))
                } else {
                    Ok(
                        StatementView::User {
                            cmd: UserCmdView::Create {
                                info: UserInfoView {
                                    name: args[0],
                                    password: args[1],
                                    level: args[2],
                                },
                            },
                        },
                    )
                },
            },
            TokenView::Command(Command::Delete) => match p_value(tokens, 2) {
                Err(e) => Err(e),
                Ok(_) => Err(CmdErrorView::MissingArg),
            },
            t => Err(CmdErrorView::UnexpectedToken(t)),
        }
    }
}

/// The statement that starts with `list`.
pub open spec fn p_list(tokens: Seq<TokenView>) -> core::result::Result<
    StatementView,
    CmdErrorView,
> {
    if tokens.len() <= 1 {
        Err(CmdErrorView::MissingArg)
    } else {
        match tokens[1] {
            TokenView::Arg(Arg::Values) => Ok(StatementView::List { list: List::Values }),
            TokenView::Arg(Arg::Entries) => Ok(StatementView::List { list: List::Entries }),
            t => Err(CmdErrorView::UnexpectedToken(t)),
        }
    }
}

/// The statement that a row of tokens is.
pub open spec fn statement(tokens: Seq<TokenView>) -> core::result::Result<
    StatementView,
    CmdErrorView,
> {
    if tokens.len() == 0 {
        Err(CmdErrorView::MissingStatement)
    } else {
        match tokens[0] {
            TokenView::Command(Command::Open) => p_open(tokens),
            TokenView::Command(Command::Add) => p_add(tokens),
            TokenView::Command(Command::Delete) => match p_key(tokens, 1) {
                Ok((key, _)) => Ok(StatementView::Delete { key }),
                Err(e) => Err(e),
            },
            TokenView::Command(Command::Get) => match p_key(tokens, 1) {
                Ok((key, _)) => Ok(StatementView::Get { key }),
                Err(e) => Err(e),
            },
            TokenView::Command(Command::TypeOf) => match p_key(tokens, 1) {
                Ok((key, _)) => Ok(StatementView::TypeOf { key }),
                Err(e) => Err(e),
            },
            TokenView::Command(Command::User) => p_user(tokens),
            TokenView::Command(Command::List) => p_list(tokens),
            TokenView::Command(Command::Compact) => Ok(StatementView::Compact),
            TokenView::Command(Command::Quit) => Ok(StatementView::Quit),
            t => Err(CmdErrorView::UnexpectedToken(t)),
        }
    }
}

/// A parsed value ends behind its start and inside the tokens.
pub proof fn lemma_p_value_bounds(tokens: Seq<TokenView>, pos: int)
    ensures
        p_value(tokens, pos) matches Ok((_, n)) ==> pos < n <= tokens.len(),
        p_array(tokens, pos) matches Ok((_, n)) ==> pos < n <= tokens.len(),
        p_items(tokens, pos) matches Ok((_, n)) ==> pos < n <= tokens.len(),
    decreases tokens.len() - pos, 3nat,
{
    if 0 <= pos < tokens.len() {
        lemma_p_value_bounds(tokens, pos + 1);
        match p_value(tokens, pos) {
            Ok((_, n)) => {
                if pos < n <= tokens.len() {
                    let next = after_comma(tokens, n);
                    if next < tokens.len() {
                        lemma_p_value_bounds(tokens, next);
                    }
                }
            },
            Err(_) => {},
        }
    }
}

/// Whether `r` is what the mathematical parser `expected`.
pub open spec fn value_is(
    r: core::result::Result<(ValueP, usize), CmdError>,
    expected: core::result::Result<(ValuePView, int), CmdErrorView>,
) -> bool {
    match expected {
        Ok((v, n)) => r matches Ok((value, next)) && value@ == v && next == n,
        Err(e) => r matches Err(error) && error@ == e,
    }
}

/// The views of a row of names.
pub open spec fn name_views(names: Seq<String>) -> Seq<Seq<char>> {
    Seq::new(names.len(), |i: int| names[i]@)
}

impl Parser {
    /// A parser that has seen no line yet.
    pub fn new() -> (parser: Parser)
        ensures
            parser.tokens_view() == Seq::<TokenView>::empty(),
    {
        let tokens: Vec<Token> = Vec::new();
        assert(token_views(tokens@) =~= Seq::<TokenView>::empty());
        Parser { tokens }
    }

    /// The tokens of the line that was parsed last.
    pub closed spec fn tokens_view(&self) -> Seq<TokenView> {
        token_views(self.tokens@)
    }

    /// The statement that the line `s` is, or why it is none.
    pub fn parse(&mut self, s: &str) -> (r: core::result::Result<Statement, CmdError>)
        ensures
            final(self).tokens_view() == lex_spec(s@),
            match statement(lex_spec(s@)) {
                Ok(expected) => r matches Ok(found) && found@ == expected,
                Err(e) => r matches Err(error) && error@ == e,
            },
    {
        self.tokens = lex(s);
        let tokens = &self.tokens;
        let ghost views = token_views(tokens@);
        if tokens.len() == 0 {
            return Err(CmdError::MissingStatement);
        }
        assert(views[0] == tokens@[0]@);
        match &tokens[0] {
            Token::Command(Command::Open) => Self::parse_open(tokens),
            Token::Command(Command::Add) => Self::parse_add(tokens),
            Token::Command(Command::Delete) => Self::parse_delete(tokens),
            Token::Command(Command::Get) => Self::parse_get(tokens),
            Token::Command(Command::TypeOf) => Self::parse_typeof(tokens),
            Token::Command(Command::User) => Self::parse_user(tokens),
            Token::Command(Command::List) => Self::parse_list(tokens),
            Token::Command(Command::Compact) => Ok(Statement::Compact),
            Token::Command(Command::Quit) => Ok(Statement::Quit),
            t => Err(CmdError::UnexpectedToken(t.clone())),
        }
    }

    fn parse_add(tokens: &Vec<Token>) -> (r: core::result::Result<Statement, CmdError>)
        requires
            tokens@.len() > 0,
        ensures
            match p_add(token_views(tokens@)) {
                Ok(expected) => r matches Ok(found) && found@ == expected,
                Err(e) => r matches Err(error) && error@ == e,
            },
    {
        let len: usize = tokens.len();
        let (datatype, n) = match Self::parse_datatype(tokens, 1) {
            Ok(x) => x,
            Err(e) => {
                return Err(e);
            },
        };
        let (key, m) = match Self::parse_key(tokens, n) {
            Ok(x) => x,
            Err(e) => {
                return Err(e);
            },
        };
        let parsed = match datatype {
            ValueType::Array(_) => Self::parse_array(tokens, m),
            _ => Self::parse_value(tokens, m),
        };
        match parsed {
            Ok((value, _)) => Ok(Statement::Add { key, value, datatype }),
            Err(e) => Err(e),
        }
    }

    fn parse_datatype(tokens: &Vec<Token>, pos: usize) -> (r: core::result::Result<
        (ValueType, usize),
        CmdError,
    >)
        ensures
            match p_datatype(token_views(tokens@), pos as int) {
                Ok((t, n)) => r == Ok::<(ValueType, usize), CmdError>((t, n as usize)) && pos <= n
                    && (pos <= tokens@.len() ==> n <= tokens@.len()),
                Err(e) => r matches Err(error) && error@ == e,
            },
        decreases tokens@.len() - pos,
    {
        let len: usize = tokens.len();
        let ghost views = token_views(tokens@);
        if pos >= len {
            return Ok((ValueType::String, pos));
        }
        assert(views[pos as int] == tokens@[pos as int]@);
        let datatype = match &tokens[pos] {
            Token::DataType(DataType::Null) => ValueType::Null,
            Token::DataType(DataType::Bool) => ValueType::Bool,
            Token::DataType(DataType::Int32) => ValueType::Int32,
            Token::DataType(DataType::Int64) => ValueType::Int64,
            Token::DataType(DataType::Float32) => ValueType::Float32,
            Token::DataType(DataType::Float64) => ValueType::Float64,
            Token::DataType(DataType::Char) => ValueType::Char,
            Token::DataType(DataType::String) => ValueType::String,
            Token::DataType(DataType::Array) => {
                if pos + 1 >= len {
                    return Err(CmdError::MissingToken(Token::Symbol(Symbol::LeftParen)));
                }
                let (inner, n) = match Self::parse_datatype(tokens, pos + 2) {
                    Ok(x) => x,
                    Err(e) => {
                        return Err(e);
                    },
                };
                if n >= len {
                    return Err(CmdError::MissingToken(Token::Symbol(Symbol::RightParen)));
                }
                return Ok((ValueType::Array(Box::new(inner)), n + 1));
            },
            _ => {
                return Ok((ValueType::String, pos));
            },
        };
        Ok((datatype, pos + 1))
    }

    fn parse_typeof(tokens: &Vec<Token>) -> (r: core::result::Result<Statement, CmdError>)
        ensures
            match p_key(token_views(tokens@), 1) {
                Ok((key, _)) => r matches Ok(found) && found@ == (StatementView::TypeOf { key }),
                Err(e) => r matches Err(error) && error@ == e,
            },
    {
        match Self::parse_key(tokens, 1) {
            Ok((key, _)) => Ok(Statement::TypeOf { key }),
            Err(e) => Err(e),
        }
    }

    fn parse_get(tokens: &Vec<Token>) -> (r: core::result::Result<Statement, CmdError>)
        ensures
            match p_key(token_views(tokens@), 1) {
                Ok((key, _)) => r matches Ok(found) && found@ == (StatementView::Get { key }),
                Err(e) => r matches Err(error) && error@ == e,
            },
    {
        match Self::parse_key(tokens, 1) {
            Ok((key, _)) => Ok(Statement::Get { key }),
            Err(e) => Err(e),
        }
    }

    fn parse_delete(tokens: &Vec<Token>) -> (r: core::result::Result<Statement, CmdError>)
        ensures
            match p_key(token_views(tokens@), 1) {
                Ok((key, _)) => r matches Ok(found) && found@ == (StatementView::Delete { key }),
                Err(e) => r matches Err(error) && error@ == e,
            },
    {
        match Self::parse_key(tokens, 1) {
            Ok((key, _)) => Ok(Statement::Delete { key }),
            Err(e) => Err(e),
        }
    }

    fn parse_key(tokens: &Vec<Token>, pos: usize) -> (r: core::result::Result<
        (String, usize),
        CmdError,
    >)
        ensures
            match p_key(token_views(tokens@), pos as int) {
                Ok((key, n)) => r matches Ok((found, next)) && found@ == key && next == n,
                Err(e) => r matches Err(error) && error@ == e,
            },
    {
        match Self::parse_value(tokens, pos) {
            Ok((ValueP::Identifier(s), n)) => Ok((s, n)),
            _ => Err(CmdError::MissingKey),
        }
    }

    fn parse_user(tokens: &Vec<Token>) -> (r: core::result::Result<Statement, CmdError>)
        requires
            tokens@.len() > 0,
        ensures
            match p_user(token_views(tokens@)) {
                Ok(expected) => r matches Ok(found) && found@ == expected,
                Err(e) => r matches Err(error) && error@ == e,
            },
    {
        let ghost views = token_views(tokens@);
        if tokens.len() <= 1 {
            return Err(CmdError::MissingSubCmd);
        }
        assert(views[1] == tokens@[1]@);
        match &tokens[1] {
            Token::Command(Command::Create) => {
                let (mut user_info, _) = match Self::parse_str_args(tokens, 2) {
                    Ok(x) => x,
                    Err(e) => {
                        return Err(e);
                    },
                };
                if user_info.len() != 3 {
                    return Err(CmdError::ParameterError("create user".to_owned()));
                }
                let ghost names = name_views(user_info@);
                assert(names[0] == user_info@[0]@ && names[1] == user_info@[1]@ && names[2]
                    == user_info@[2]@);
                let level = user_info.remove(2);
                let password = user_info.remove(1);
                let name = user_info.remove(0);
                Ok(Statement::User { cmd: UserCmd::Create { info: UserInfo { name, password, level } } })
            },
            Token::Command(Command::Delete) => {
                match Self::parse_value(tokens, 2) {
                    Ok(_) => Err(CmdError::MissingArg),
                    Err(e) => Err(e),
                }
            },
            t => Err(CmdError::UnexpectedToken(t.clone())),
        }
    }

    fn parse_list(tokens: &Vec<Token>) -> (r: core::result::Result<Statement, CmdError>)
        requires
            tokens@.len() > 0,
        ensures
            match p_list(token_views(tokens@)) {
                Ok(expected) => r matches Ok(found) && found@ == expected,
                Err(e) => r matches Err(error) && error@ == e,
            },
    {
        let ghost views = token_views(tokens@);
        if tokens.len() <= 1 {
            return Err(CmdError::MissingArg);
        }
        assert(views[1] == tokens@[1]@);
        match &tokens[1] {
            Token::Arg(Arg::Values) => Ok(Statement::List { list: List::Values }),
            Token::Arg(Arg::Entries) => Ok(Statement::List { list: List::Entries }),
            t => Err(CmdError::UnexpectedToken(t.clone())),
        }
    }

    fn parse_open(tokens: &Vec<Token>) -> (r: core::result::Result<Statement, CmdError>)
        requires
            tokens@.len() > 0,
        ensures
            match p_open(token_views(tokens@)) {
                Ok(expected) => r matches Ok(found) && found@ == expected,
                Err(e) => r matches Err(error) && error@ == e,
            },
    {
        let ghost views = token_views(tokens@);
        if tokens.len() <= 1 {
            return Err(CmdError::MissingPath);
        }
        assert(views[1] == tokens@[1]@);
        match &tokens[1] {
            Token::Identifier(s) => Ok(Statement::Open { file: s.clone() }),
            _ => Err(CmdError::MissingPath),
        }
    }

    fn parse_str_args(tokens: &Vec<Token>, pos: usize) -> (r: core::result::Result<
        (Vec<String>, usize),
        CmdError,
    >)
        ensures
            match p_str_args(token_views(tokens@), pos as int) {
                Ok((names, n)) => r matches Ok((found, next)) && name_views(found@) == names
                    && next == n,
                Err(e) => r matches Err(error) && error@ == e,
            },
    {
        let len: usize = tokens.len();
        let ghost views = token_views(tokens@);
        if pos >= len {
            return Err(CmdError::MissingToken(Token::Symbol(Symbol::LeftParen)));
        }
        let mut args: Vec<String> = Vec::new();
        let mut at: usize = pos + 1;
        assert(name_views(args@) =~= Seq::<Seq<char>>::empty());
        loop
            invariant
                pos < at <= len,
                len == tokens@.len(),
                views == token_views(tokens@),
                p_names(views, pos + 1) == match p_names(views, at as int) {
                    Ok((rest, end)) => Ok::<(Seq<Seq<char>>, int), CmdErrorView>(
                        (name_views(args@) + rest, end),
                    ),
                    Err(e) => Err(e),
                },
            decreases len - at,
        {
            if at >= len {
                return Err(CmdError::MissingValue);
            }
            assert(views[at as int] == tokens@[at as int]@);
            let ghost before = name_views(args@);
            match &tokens[at] {
                Token::Symbol(Symbol::RightParen) => {
                    assert(before + Seq::<Seq<char>>::empty() =~= before);
                    return Ok((args, at + 1));
                },
                Token::Identifier(v) => {
                    args.push(v.clone());
                    let mut next = at + 1;
                    if next < len {
                        assert(views[next as int] == tokens@[next as int]@);
                        if let Token::Symbol(Symbol::Comma) = &tokens[next] {
                            next = next + 1;
                        }
                    }
                    proof {
                        assert(next == after_comma(views, at + 1));
                        assert(name_views(args@) =~= before.push(v@));
                        match p_names(views, next as int) {
                            Ok((rest, end)) => {
                                assert(before + (seq![v@] + rest) =~= before.push(v@) + rest);
                            },
                            Err(_) => {},
                        }
                    }
                    at = next;
                },
                _ => {
                    return Err(CmdError::MissingValue);
                },
            }
        }
    }

    fn parse_value(tokens: &Vec<Token>, pos: usize) -> (r: core::result::Result<
        (ValueP, usize),
        CmdError,
    >)
        ensures
            value_is(r, p_value(token_views(tokens@), pos as int)),
        decreases tokens@.len() - pos, 0nat,
    {
        let len: usize = tokens.len();
        let ghost views = token_views(tokens@);
        proof {
            lemma_p_value_bounds(views, pos as int);
        }
        if pos >= len {
            return Err(CmdError::MissingValue);
        }
        assert(views[pos as int] == tokens@[pos as int]@);
        match &tokens[pos] {
            Token::Identifier(s) => Ok((ValueP::Identifier(s.clone()), pos + 1)),
            Token::Number(n) => Ok((ValueP::Number(n.clone()), pos + 1)),
            Token::Bool(b) => Ok((ValueP::Bool(*b), pos + 1)),
            Token::Symbol(Symbol::LeftParen) => {
                proof {
                    lemma_p_value_bounds(views, pos + 1);
                }
                let (value, n) = match Self::parse_value(tokens, pos + 1) {
                    Ok(x) => x,
                    Err(e) => {
                        return Err(e);
                    },
                };
                if n < len {
                    assert(views[n as int] == tokens@[n as int]@);
                    if let Token::Symbol(Symbol::RightParen) = &tokens[n] {
                        return Ok((value, n + 1));
                    }
                }
                Err(CmdError::MissingToken(Token::Symbol(Symbol::RightParen)))
            },
            Token::Symbol(Symbol::LeftBracket) => Self::parse_array(tokens, pos + 1),
            _ => Err(CmdError::MissingValue),
        }
    }

    fn parse_array(tokens: &Vec<Token>, pos: usize) -> (r: core::result::Result<
        (ValueP, usize),
        CmdError,
    >)
        ensures
            value_is(r, p_array(token_views(tokens@), pos as int)),
        decreases tokens@.len() - pos, 2nat,
    {
        let len: usize = tokens.len();
        let ghost views = token_views(tokens@);
        if pos >= len {
            return Err(CmdError::MissingToken(Token::Symbol(Symbol::LeftBracket)));
        }
        let mut array: Vec<ValueP> = Vec::new();
        let mut at: usize = pos + 1;
        loop
            invariant
                pos < at <= len,
                len == tokens@.len(),
                views == token_views(tokens@),
                p_items(views, pos + 1) == match p_items(views, at as int) {
                    Ok((rest, end)) => Ok::<(Seq<ValuePView>, int), CmdErrorView>(
                        (written_views(array@, array@.len()) + rest, end),
                    ),
                    Err(e) => Err(e),
                },
            decreases len - at,
        {
            if at >= len {
                return Err(CmdError::MissingValue);
            }
            assert(views[at as int] == tokens@[at as int]@);
            let ghost before = written_views(array@, array@.len());
            proof {
                lemma_written_views(array@, array@.len());
                lemma_p_value_bounds(views, at as int);
            }
            if let Token::Symbol(Symbol::RightBracket) = &tokens[at] {
                assert(before + Seq::<ValuePView>::empty() =~= before);
                return Ok((ValueP::Array(Box::new(array)), at + 1));
            }
            let (value, n) = match Self::parse_value(tokens, at) {
                Ok(x) => x,
                Err(e) => {
                    return Err(e);
                },
            };
            let ghost view = value@;
            array.push(value);
            let mut next = n;
            if next < len {
                assert(views[next as int] == tokens@[next as int]@);
                if let Token::Symbol(Symbol::Comma) = &tokens[next] {
                    next = next + 1;
                }
            }
            proof {
                assert(next == after_comma(views, n as int));
                lemma_written_views(array@, array@.len());
                assert(written_views(array@, array@.len()) =~= before.push(view));
                match p_items(views, next as int) {
                    Ok((rest, end)) => {
                        assert(before + (seq![view] + rest) =~= before.push(view) + rest);
                    },
                    Err(_) => {},
                }
            }
            at = next;
        }
    }
}

} // verus!
