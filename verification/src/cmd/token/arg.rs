//! What a listing can be asked for.
use vstd::prelude::*;

verus! {

/// The argument of `list`.
#[derive(Clone, Copy, Debug, PartialEq, Eq, Structural)]
pub enum Arg {
    Values,
    Entries,
}

impl Arg {
    /// The word of this argument.
    pub open spec fn word(self) -> Seq<char> {
        match self {
            Arg::Values => "values"@,
            Arg::Entries => "entries"@,
        }
    }

    /// The word of this argument.
    pub fn to_text(&self) -> (text: String)
        ensures
            text@ == self.word(),
    {
        match self {
            Arg::Values => "values".to_owned(),
            Arg::Entries => "entries".to_owned(),
        }
    }
}

} // verus!
