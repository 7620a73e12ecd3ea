//! What can go wrong when a command line is parsed.
use vstd::prelude::*;
use crate::cmd::token::token::{Token, TokenView, token_text};

verus! {

/// The ways in which a command line fails to be a statement.
#[derive(Debug, PartialEq, Eq)]
pub enum CmdError {
    MissingPath,
    MissingToken(Token),
    MissingStatement,
    MissingArg,
    MissingValue,
    MissingKey,
    MissingSubCmd,
    ParameterError(String),
    UnexpectedToken(Token),
    Unknown,
}

/// The mathematical content of a [`CmdError`].
pub enum CmdErrorView {
    MissingPath,
    MissingToken(TokenView),
    MissingStatement,
    MissingArg,
    MissingValue,
    MissingKey,
    MissingSubCmd,
    ParameterError(Seq<char>),
    UnexpectedToken(TokenView),
    Unknown,
}

pub type Result<T> = std::result::Result<T, CmdError>;

impl View for CmdError {
    type V = CmdErrorView;

    open spec fn view(&self) -> CmdErrorView {
        match self {
            CmdError::MissingPath => CmdErrorView::MissingPath,
            CmdError::MissingToken(t) => CmdErrorView::MissingToken(t@),
            CmdError::MissingStatement => CmdErrorView::MissingStatement,
            CmdError::MissingArg => CmdErrorView::MissingArg,
            CmdError::MissingValue => CmdErrorView::MissingValue,
            CmdError::MissingKey => CmdErrorView::MissingKey,
            CmdError::MissingSubCmd => CmdErrorView::MissingSubCmd,
            CmdError::ParameterError(s) => CmdErrorView::ParameterError(s@),
            CmdError::UnexpectedToken(t) => CmdErrorView::UnexpectedToken(t@),
            CmdError::Unknown => CmdErrorView::Unknown,
        }
    }
}

/// The message of each error.
pub open spec fn error_text(e: CmdErrorView) -> Seq<char> {
    match e {
        CmdErrorView::MissingPath => "Missing path"@,
        CmdErrorView::MissingToken(t) => "Missing token: '"@ + token_text(t) + "'"@,
        CmdErrorView::MissingStatement => "Missing statement"@,
        CmdErrorView::MissingArg => "Missing argument"@,
        CmdErrorView::MissingValue => "Missing value"@,
        CmdErrorView::MissingKey => "Missing key"@,
        CmdErrorView::MissingSubCmd => "Missing subcommand"@,
        CmdErrorView::ParameterError(s) => "Incorrect argument to command '"@ + s + "'"@,
        CmdErrorView::UnexpectedToken(t) => "Unexpected token: '"@ + token_text(t) + "'"@,
        CmdErrorView::Unknown => "Unknown error"@,
    }
}

impl CmdError {
    /// The message of this error.
    pub fn message(&self) -> (text: String)
        ensures
            text@ == error_text(self@),
    {
        match self {
            CmdError::MissingPath => "Missing path".to_owned(),
            CmdError::MissingToken(t) => {
                let text = "Missing token: '".to_owned();
                let text = text.concat(t.to_text().as_str());
                text.concat("'")
            },
            CmdError::MissingStatement => "Missing statement".to_owned(),
            CmdError::MissingArg => "Missing argument".to_owned(),
            CmdError::MissingValue => "Missing value".to_owned(),
            CmdError::MissingKey => "Missing key".to_owned(),
            CmdError::MissingSubCmd => "Missing subcommand".to_owned(),
            CmdError::ParameterError(s) => {
                let text = "Incorrect argument to command '".to_owned();
                let text = text.concat(s.as_str());
                text.concat("'")
            },
            CmdError::UnexpectedToken(t) => {
                let text = "Unexpected token: '".to_owned();
                let text = text.concat(t.to_text().as_str());
                text.concat("'")
            },
            CmdError::Unknown => "Unknown error".to_owned(),
        }
    }
}

} // verus!
