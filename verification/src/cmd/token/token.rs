//! Tokens, and what strings and characters know of them.
use vstd::prelude::*;
use crate::cmd::token::arg::Arg;
use crate::cmd::token::command::Command;
use crate::cmd::token::datatype::DataType;
use crate::cmd::token::symbol::{Symbol, symbol_from, symbol_of};
use crate::text::{to_uppercase, uppercase};

verus! {

/// One token of a command line.
#[derive(Debug, PartialEq, Eq)]
pub enum Token {
    DataType(DataType),
    Command(Command),
    Symbol(Symbol),
    Arg(Arg),
    Identifier(String),
    Number(String),
    Bool(bool),
}

/// The mathematical content of a token.
pub enum TokenView {
    DataType(DataType),
    Command(Command),
    Symbol(Symbol),
    Arg(Arg),
    Identifier(Seq<char>),
    Number(Seq<char>),
    Bool(bool),
}

impl View for Token {
    type V = TokenView;

    open spec fn view(&self) -> TokenView {
        match self {
            Token::DataType(d) => TokenView::DataType(*d),
            Token::Command(c) => TokenView::Command(*c),
            Token::Symbol(s) => TokenView::Symbol(*s),
            Token::Arg(a) => TokenView::Arg(*a),
            Token::Identifier(s) => TokenView::Identifier(s@),
            Token::Number(s) => TokenView::Number(s@),
            Token::Bool(b) => TokenView::Bool(*b),
        }
    }
}

impl Clone for Token {
    fn clone(&self) -> (copy: Token)
        ensures
            copy == *self,
    {
        match self {
            Token::DataType(d) => Token::DataType(*d),
            Token::Command(c) => Token::Command(*c),
            Token::Symbol(s) => Token::Symbol(*s),
            Token::Arg(a) => Token::Arg(*a),
            Token::Identifier(s) => Token::Identifier(s.clone()),
            Token::Number(s) => Token::Number(s.clone()),
            Token::Bool(b) => Token::Bool(*b),
        }
    }
}

/// The views of a row of tokens.
pub open spec fn token_views(tokens: Seq<Token>) -> Seq<TokenView> {
    Seq::new(tokens.len(), |i: int| tokens[i]@)
}

/// How a token is displayed.
pub open spec fn token_text(t: TokenView) -> Seq<char> {
    match t {
        TokenView::Command(c) => c.word(),
        TokenView::DataType(d) => d.word(),
        TokenView::Symbol(s) => s.spelling(),
        TokenView::Arg(a) => a.word(),
        TokenView::Identifier(s) => s,
        TokenView::Number(s) => s,
        TokenView::Bool(b) => if b {
            "TRUE"@
        } else {
            "FALSE"@
        },
    }
}

impl Token {
    /// How this token is displayed.
    pub fn to_text(&self) -> (text: String)
        ensures
            text@ == token_text(self@),
    {
        match self {
            Token::Command(c) => c.to_text(),
            Token::DataType(d) => d.to_text(),
            Token::Symbol(s) => s.to_text(),
            Token::Arg(a) => a.to_text(),
            Token::Identifier(s) => s.clone(),
            Token::Number(s) => s.clone(),
            Token::Bool(b) => if *b {
                "TRUE".to_owned()
            } else {
                "FALSE".to_owned()
            },
        }
    }
}

/// The type that a word names.
pub open spec fn datatype_of(s: Seq<char>) -> Option<DataType> {
    if s == "null"@ {
        Some(DataType::Null)
    } else if s == "bool"@ {
        Some(DataType::Bool)
    } else if s == "i32"@ || s == "int"@ {
        Some(DataType::Int32)
    } else if s == "i64"@ || s == "long"@ {
        Some(DataType::Int64)
    } else if s == short_float() || s == "float"@ {
        Some(DataType::Float32)
    } else if s == short_double() || s == "double"@ {
        Some(DataType::Float64)
    } else if s == "char"@ {
        Some(DataType::Char)
    } else if s == "string"@ {
        Some(DataType::String)
    } else if s == "array"@ {
        Some(DataType::Array)
    } else {
        None
    }
}

/// The short word for the 32-bit floating-point type: `f`, `3`, `2`.
pub open spec fn short_float() -> Seq<char> {
    "f"@ + "32"@
}

/// The short word for the 64-bit floating-point type: `f`, `6`, `4`.
pub open spec fn short_double() -> Seq<char> {
    "f"@ + "64"@
}

/// The command that a word names.
pub open spec fn command_of(s: Seq<char>) -> Option<Command> {
    if s == "open"@ {
        Some(Command::Open)
    } else if s == "add"@ {
        Some(Command::Add)
    } else if s == "delete"@ {
        Some(Command::Delete)
    } else if s == "compact"@ {
        Some(Command::Compact)
    } else if s == "get"@ {
        Some(Command::Get)
    } else if s == "typeof"@ {
        Some(Command::TypeOf)
    } else if s == "list"@ {
        Some(Command::List)
    } else if s == "user"@ {
        Some(Command::User)
    } else if s == "quit"@ {
        Some(Command::Quit)
    } else if s == "create"@ {
        Some(Command::Create)
    } else {
        None
    }
}

/// The argument that a word names.
pub open spec fn arg_of(s: Seq<char>) -> Option<Arg> {
    if s == "values"@ {
        Some(Arg::Values)
    } else if s == "entries"@ {
        Some(Arg::Entries)
    } else {
        None
    }
}

/// The truth value that a word names, in any mix of cases.
pub open spec fn bool_of(s: Seq<char>) -> Option<bool> {
    if uppercase(s) == "TRUE"@ {
        Some(true)
    } else if uppercase(s) == "FALSE"@ {
        Some(false)
    } else {
        None
    }
}

/// Whether `text` is the word `word`.
fn is_word(text: &String, word: &str) -> (b: bool)
    ensures
        b == (text@ == word@),
{
    *text == word.to_owned()
}

/// What a string knows of the tokens it may spell.
pub trait StringExt {
    fn as_datatype(&self) -> Option<DataType>;

    fn as_command(&self) -> Option<Command>;

    fn as_symbol(&self) -> Option<Symbol>;

    fn as_arg(&self) -> Option<Arg>;

    fn as_bool(&self) -> Option<bool>;
}

impl StringExt for String {
    fn as_datatype(&self) -> (r: Option<DataType>)
        ensures
            r == datatype_of(self@),
    {
        let short32 = "f".to_owned().concat("32");
        let short64 = "f".to_owned().concat("64");
        if is_word(self, "null") {
            Some(DataType::Null)
        } else if is_word(self, "bool") {
            Some(DataType::Bool)
        } else if is_word(self, "i32") || is_word(self, "int") {
            Some(DataType::Int32)
        } else if is_word(self, "i64") || is_word(self, "long") {
            Some(DataType::Int64)
        } else if *self == short32 || is_word(self, "float") {
            Some(DataType::Float32)
        } else if *self == short64 || is_word(self, "double") {
            Some(DataType::Float64)
        } else if is_word(self, "char") {
            Some(DataType::Char)
        } else if is_word(self, "string") {
            Some(DataType::String)
        } else if is_word(self, "array") {
            Some(DataType::Array)
        } else {
            None
        }
    }

    fn as_command(&self) -> (r: Option<Command>)
        ensures
            r == command_of(self@),
    {
        if is_word(self, "open") {
            Some(Command::Open)
        } else if is_word(self, "add") {
            Some(Command::Add)
        } else if is_word(self, "delete") {
            Some(Command::Delete)
        } else if is_word(self, "compact") {
            Some(Command::Compact)
        } else if is_word(self, "get") {
            Some(Command::Get)
        } else if is_word(self, "typeof") {
            Some(Command::TypeOf)
        } else if is_word(self, "list") {
            Some(Command::List)
        } else if is_word(self, "user") {
            Some(Command::User)
        } else if is_word(self, "quit") {
            Some(Command::Quit)
        } else if is_word(self, "create") {
            Some(Command::Create)
        } else {
            None
        }
    }

    fn as_symbol(&self) -> (r: Option<Symbol>)
        ensures
            r == symbol_of(self@),
    {
        crate::cmd::token::symbol::to_symbol(self.as_str())
    }

    fn as_arg(&self) -> (r: Option<Arg>)
        ensures
            r == arg_of(self@),
    {
        if is_word(self, "values") {
            Some(Arg::Values)
        } else if is_word(self, "entries") {
            Some(Arg::Entries)
        } else {
            None
        }
    }

    fn as_bool(&self) -> (r: Option<bool>)
        ensures
            r == bool_of(self@),
    {
        let upper = to_uppercase(self.as_str());
        if is_word(&upper, "TRUE") {
            Some(true)
        } else if is_word(&upper, "FALSE") {
            Some(false)
        } else {
            None
        }
    }
}

/// What a character knows of the symbols.
pub trait SqlCharExt {
    fn is_symbol(&self) -> bool;
}

impl SqlCharExt for char {
    /// Whether the character alone spells a symbol.
    fn is_symbol(&self) -> (b: bool)
        ensures
            b == (symbol_of(seq![*self]) is Some),
    {
        symbol_from(*self, false).is_some()
    }
}

} // verus!
