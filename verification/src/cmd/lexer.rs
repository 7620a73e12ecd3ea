//! The lexer: from a command line to its tokens.
//!
//! Blanks separate tokens.  A quote starts a literal that runs to the
//! next quote of the same kind.  A digit starts a number, which is a run
//! of digits and dots.  A symbol character stands for its symbol; `<` and
//! `>` take a following `=` with them, and where none follows they take
//! the character after them away.  Anything else starts a word, a run of
//! letters, digits and `_`, which is looked up as a command, a type, an
//! argument and a truth value, in this order, and is an identifier when
//! it is none of these.  A character that can start nothing is skipped.
use vstd::prelude::*;
use crate::cmd::token::symbol::{
    Symbol, SymbolExtChar, starts_pair, symbol_from, symbol_of, symbol_of_chars,
};
use crate::cmd::token::token::{
    SqlCharExt, StringExt, Token, TokenView, arg_of, bool_of, command_of, datatype_of,
    token_views,
};
use crate::text::{alphanumeric, chars_of, is_alphanumeric, string_of};

verus! {

/// The kinds of runs of characters that make one token.
#[derive(Clone, Copy, Debug, PartialEq, Eq, Structural)]
pub enum Run {
    /// Up to the next occurrence of this quote.
    Quoted(char),
    /// Digits and dots.
    Number,
    /// Letters, digits and `_`.
    Word,
}

/// Whether a character is a blank.
pub open spec fn is_space(c: char) -> bool {
    c == ' ' || c == '\n' || c == '\r' || c == '\t'
}

/// Whether a character is a quote.
pub open spec fn is_quote(c: char) -> bool {
    c == '\'' || c == '"'
}

/// Whether a character is one of the ten digits.
pub open spec fn is_digit(c: char) -> bool {
    '0' <= c <= '9'
}

/// Whether a character ends a run of the given kind.
pub open spec fn stops(kind: Run, c: char) -> bool {
    match kind {
        Run::Quoted(quote) => c == quote,
        Run::Number => !is_digit(c) && c != '.',
        Run::Word => !alphanumeric(c) && c != '_',
    }
}

/// Where the run of the given kind that starts at `from` ends.
pub open spec fn run_end(chars: Seq<char>, from: int, kind: Run) -> int
    decreases chars.len() - from,
{
    if from < 0 || from >= chars.len() || stops(kind, chars[from]) {
        from
    } else {
        run_end(chars, from + 1, kind)
    }
}

/// The token that a word is.
pub open spec fn word_token(text: Seq<char>) -> TokenView {
    if command_of(text) is Some {
        TokenView::Command(command_of(text)->0)
    } else if datatype_of(text) is Some {
        TokenView::DataType(datatype_of(text)->0)
    } else if arg_of(text) is Some {
        TokenView::Arg(arg_of(text)->0)
    } else if bool_of(text) is Some {
        TokenView::Bool(bool_of(text)->0)
    } else {
        TokenView::Identifier(text)
    }
}

/// The token that starts at `i`, if one does, and where the lexer goes on.
pub open spec fn lex_at(chars: Seq<char>, i: int) -> (Option<TokenView>, int)
    recommends
        0 <= i < chars.len(),
{
    let c = chars[i];
    if is_space(c) {
        (None, i + 1)
    } else if is_quote(c) {
        let end = run_end(chars, i + 1, Run::Quoted(c));
        (
            Some(TokenView::Identifier(chars.subrange(i + 1, end))),
            if end < chars.len() {
                end + 1
            } else {
                end
            },
        )
    } else if is_digit(c) {
        let end = run_end(chars, i, Run::Number);
        (Some(TokenView::Number(chars.subrange(i, end))), end)
    } else if symbol_of(seq![c]) is Some {
        if starts_pair(c, chars, i) {
            (
                match symbol_of_chars(c, true) {
                    Some(s) => Some(TokenView::Symbol(s)),
                    None => None,
                },
                i + 2,
            )
        } else {
            (
                Some(TokenView::Symbol(symbol_of(seq![c])->0)),
                if (c == '<' || c == '>') && i + 1 < chars.len() {
                    i + 2
                } else {
                    i + 1
                },
            )
        }
    } else {
        let end = run_end(chars, i, Run::Word);
        if end == i {
            (None, i + 1)
        } else {
            (Some(word_token(chars.subrange(i, end))), end)
        }
    }
}

/// The tokens of `chars` from `i` on.
pub open spec fn lex_from(chars: Seq<char>, i: int) -> Seq<TokenView>
    decreases chars.len() - i,
{
    if i < 0 || i >= chars.len() {
        Seq::empty()
    } else {
        let (token, next) = lex_at(chars, i);
        if next <= i || next > chars.len() {
            Seq::empty()
        } else {
            match token {
                Some(t) => seq![t] + lex_from(chars, next),
                None => lex_from(chars, next),
            }
        }
    }
}

/// The tokens of a command line.
pub open spec fn lex_spec(text: Seq<char>) -> Seq<TokenView> {
    lex_from(text, 0)
}

/// A run ends at or after its start and inside the text.
pub proof fn lemma_run_end(chars: Seq<char>, from: int, kind: Run)
    requires
        0 <= from <= chars.len(),
    ensures
        from <= run_end(chars, from, kind) <= chars.len(),
    decreases chars.len() - from,
{
    if from < chars.len() && !stops(kind, chars[from]) {
        lemma_run_end(chars, from + 1, kind);
    }
}

/// Whether `c` is one of the ten digits.
pub fn digit(c: char) -> (b: bool)
    ensures
        b == is_digit(c),
{
    '0' <= c && c <= '9'
}

/// Whether `c` ends a run of kind `kind`.
fn stops_run(kind: Run, c: char) -> (b: bool)
    ensures
        b == stops(kind, c),
{
    match kind {
        Run::Quoted(quote) => c == quote,
        Run::Number => !digit(c) && c != '.',
        Run::Word => !is_alphanumeric(c) && c != '_',
    }
}

/// Collects the run of kind `kind` that starts at `from`: its
/// characters, and where it ends.
pub fn collect_until(chars: &Vec<char>, from: usize, kind: Run) -> (r: (String, usize))
    requires
        from <= chars@.len(),
    ensures
        r.1 == run_end(chars@, from as int, kind),
        from <= r.1 <= chars@.len(),
        r.0@ == chars@.subrange(from as int, r.1 as int),
{
    let mut end: usize = from;
    while end < chars.len() && !stops_run(kind, chars[end])
        invariant
            from <= end <= chars@.len(),
            run_end(chars@, from as int, kind) == run_end(chars@, end as int, kind),
        decreases chars@.len() - end,
    {
        end += 1;
    }
    (string_of(chars, from, end), end)
}

/// The token that a word is.
fn classify(text: String) -> (token: Token)
    ensures
        token@ == word_token(text@),
{
    if let Some(command) = text.as_command() {
        Token::Command(command)
    } else if let Some(datatype) = text.as_datatype() {
        Token::DataType(datatype)
    } else if let Some(arg) = text.as_arg() {
        Token::Arg(arg)
    } else if let Some(b) = text.as_bool() {
        Token::Bool(b)
    } else {
        Token::Identifier(text)
    }
}

/// The tokens of `text`.
pub fn lex(text: &str) -> (tokens: Vec<Token>)
    ensures
        token_views(tokens@) == lex_spec(text@),
{
    let chars = chars_of(text);
    let mut tokens: Vec<Token> = Vec::new();
    let mut i: usize = 0;
    assert(token_views(tokens@) =~= Seq::<TokenView>::empty());
    while i < chars.len()
        invariant
            i <= chars@.len(),
            chars@ == text@,
            token_views(tokens@) + lex_from(chars@, i as int) == lex_from(chars@, 0),
        decreases chars@.len() - i,
    {
        let c = chars[i];
        let len: usize = chars.len();
        let ghost before = token_views(tokens@);
        let ghost (expected, goes_on) = lex_at(chars@, i as int);
        let mut found: Option<Token> = None;
        let next: usize;
        if c == ' ' || c == '\n' || c == '\r' || c == '\t' {
            next = i + 1;
        } else if c == '\'' || c == '"' {
            let (literal, end) = collect_until(&chars, i + 1, Run::Quoted(c));
            found = Some(Token::Identifier(literal));
            next = if end < len {
                end + 1
            } else {
                end
            };
        } else if digit(c) {
            proof {
                lemma_run_end(chars@, i as int + 1, Run::Number);
            }
            let (num, end) = collect_until(&chars, i, Run::Number);
            found = Some(Token::Number(num));
            next = end;
        } else if c.is_symbol() {
            if c.has_next(&chars, i) {
                found = match symbol_from(c, true) {
                    Some(s) => Some(Token::Symbol(s)),
                    None => None,
                };
                next = i + 2;
            } else {
                found = match symbol_from(c, false) {
                    Some(s) => Some(Token::Symbol(s)),
                    None => None,
                };
                next = if (c == '<' || c == '>') && i + 1 < len {
                    i + 2
                } else {
                    i + 1
                };
            }
        } else {
            let (word, end) = collect_until(&chars, i, Run::Word);
            if end == i {
                next = i + 1;
            } else {
                found = Some(classify(word));
                next = end;
            }
        }
        assert(next == goes_on);
        assert(i < next <= len);
        assert(match found {
            Some(t) => expected == Some(t@),
            None => expected is None,
        });
        match found {
            Some(token) => {
                let ghost view = token@;
                tokens.push(token);
                assert(token_views(tokens@) =~= before.push(view));
                assert(before.push(view) + lex_from(chars@, next as int) =~= before + (seq![view]
                    + lex_from(chars@, next as int)));
            },
            None => {},
        }
        i = next;
    }
    assert(token_views(tokens@) + Seq::<TokenView>::empty() =~= token_views(tokens@));
    tokens
}

} // verus!
