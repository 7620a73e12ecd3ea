//! The command words.
use vstd::prelude::*;

verus! {

/// A command word.
#[derive(Clone, Copy, Debug, PartialEq, Eq, Structural)]
pub enum Command {
    Open,
    Add,
    Delete,
    Compact,
    Get,
    TypeOf,
    List,
    User,
    Quit,
    Create,
}

impl Command {
    /// The word of this command.
    pub open spec fn word(self) -> Seq<char> {
        match self {
            Command::Open => "open"@,
            Command::Add => "add"@,
            Command::Delete => "delete"@,
            Command::Compact => "compact"@,
            Command::Get => "get"@,
            Command::TypeOf => "typeof"@,
            Command::List => "list"@,
            Command::User => "user"@,
            Command::Quit => "quit"@,
            Command::Create => "create"@,
        }
    }

    /// The word of this command.
    pub fn to_text(&self) -> (text: String)
        ensures
            text@ == self.word(),
    {
        match self {
            Command::Open => "open".to_owned(),
            Command::Add => "add".to_owned(),
            Command::Delete => "delete".to_owned(),
            Command::Compact => "compact".to_owned(),
            Command::Get => "get".to_owned(),
            Command::TypeOf => "typeof".to_owned(),
            Command::List => "list".to_owned(),
            Command::User => "user".to_owned(),
            Command::Quit => "quit".to_owned(),
            Command::Create => "create".to_owned(),
        }
    }
}

} // verus!
