//! Punctuation.
use vstd::prelude::*;

verus! {

/// A punctuation mark or an operator.
#[derive(Debug, PartialEq, Eq, Clone, Copy, Structural)]
pub enum Symbol {
    Comma,
    Dot,
    Asterisk,
    Plus,
    Minus,
    Slash,
    Percent,
    Equal,
    NotEqual,
    LessThan,
    GreaterThan,
    LessThanOrEqual,
    GreaterThanOrEqual,
    LeftParen,
    RightParen,
    Semicolon,
    LeftBracket,
    RightBracket,
}

/// The symbol that a text spells, if it spells one.
pub open spec fn symbol_of(s: Seq<char>) -> Option<Symbol> {
    if s == seq![','] {
        Some(Symbol::Comma)
    } else if s == seq!['.'] {
        Some(Symbol::Dot)
    } else if s == seq!['*'] {
        Some(Symbol::Asterisk)
    } else if s == seq!['+'] {
        Some(Symbol::Plus)
    } else if s == seq!['-'] {
        Some(Symbol::Minus)
    } else if s == seq!['/'] {
        Some(Symbol::Slash)
    } else if s == seq!['%'] {
        Some(Symbol::Percent)
    } else if s == seq!['='] {
        Some(Symbol::Equal)
    } else if s == seq!['!', '='] {
        Some(Symbol::NotEqual)
    } else if s == seq!['<'] {
        Some(Symbol::LessThan)
    } else if s == seq!['>'] {
        Some(Symbol::GreaterThan)
    } else if s == seq!['<', '='] {
        Some(Symbol::LessThanOrEqual)
    } else if s == seq!['>', '='] {
        Some(Symbol::GreaterThanOrEqual)
    } else if s == seq!['('] {
        Some(Symbol::LeftParen)
    } else if s == seq![')'] {
        Some(Symbol::RightParen)
    } else if s == seq![';'] {
        Some(Symbol::Semicolon)
    } else if s == seq!['['] {
        Some(Symbol::LeftBracket)
    } else if s == seq![']'] {
        Some(Symbol::RightBracket)
    } else {
        None
    }
}

/// The symbol that one character spells, followed by `=` or not.
pub open spec fn symbol_of_chars(first: char, equals: bool) -> Option<Symbol> {
    symbol_of(if equals { seq![first, '='] } else { seq![first] })
}

/// The symbol that one character spells, followed by `=` or not.
pub fn symbol_from(first: char, equals: bool) -> (r: Option<Symbol>)
    ensures
        r == symbol_of_chars(first, equals),
{
    let ghost s = if equals { seq![first, '='] } else { seq![first] };
    proof {
        assert(s.len() == (if equals { 2nat } else { 1nat }));
        assert(s[0] == first);
        assert(seq![','].len() == 1 && seq!['.'].len() == 1 && seq!['*'].len() == 1);
        assert(seq!['!', '='].len() == 2 && seq!['<', '='].len() == 2 && seq!['>', '='].len() == 2);
        assert(seq![','][0] == ',' && seq!['.'][0] == '.' && seq!['*'][0] == '*' && seq!['+'][0]
            == '+' && seq!['-'][0] == '-' && seq!['/'][0] == '/' && seq!['%'][0] == '%' && seq![
            '=',
        ][0] == '=' && seq!['<'][0] == '<' && seq!['>'][0] == '>' && seq!['('][0] == '(' && seq![
            ')',
        ][0] == ')' && seq![';'][0] == ';' && seq!['['][0] == '[' && seq![']'][0] == ']');
        assert(seq!['!', '='][0] == '!' && seq!['<', '='][0] == '<' && seq!['>', '='][0] == '>');
    }
    if equals {
        if first == '!' {
            assert(s =~= seq!['!', '=']);
            Some(Symbol::NotEqual)
        } else if first == '<' {
            assert(s =~= seq!['<', '=']);
            Some(Symbol::LessThanOrEqual)
        } else if first == '>' {
            assert(s =~= seq!['>', '=']);
            Some(Symbol::GreaterThanOrEqual)
        } else {
            None
        }
    } else {
        if first == ',' {
            assert(s =~= seq![',']);
            Some(Symbol::Comma)
        } else if first == '.' {
            assert(s =~= seq!['.']);
            Some(Symbol::Dot)
        } else if first == '*' {
            assert(s =~= seq!['*']);
            Some(Symbol::Asterisk)
        } else if first == '+' {
            assert(s =~= seq!['+']);
            Some(Symbol::Plus)
        } else if first == '-' {
            assert(s =~= seq!['-']);
            Some(Symbol::Minus)
        } else if first == '/' {
            assert(s =~= seq!['/']);
            Some(Symbol::Slash)
        } else if first == '%' {
            assert(s =~= seq!['%']);
            Some(Symbol::Percent)
        } else if first == '=' {
            assert(s =~= seq!['=']);
            Some(Symbol::Equal)
        } else if first == '<' {
            assert(s =~= seq!['<']);
            Some(Symbol::LessThan)
        } else if first == '>' {
            assert(s =~= seq!['>']);
            Some(Symbol::GreaterThan)
        } else if first == '(' {
            assert(s =~= seq!['(']);
            Some(Symbol::LeftParen)
        } else if first == ')' {
            assert(s =~= seq![')']);
            Some(Symbol::RightParen)
        } else if first == ';' {
            assert(s =~= seq![';']);
            Some(Symbol::Semicolon)
        } else if first == '[' {
            assert(s =~= seq!['[']);
            Some(Symbol::LeftBracket)
        } else if first == ']' {
            assert(s =~= seq![']']);
            Some(Symbol::RightBracket)
        } else {
            None
        }
    }
}

impl Symbol {
    /// Whether this symbol is an operator or a separator of arguments.
    pub fn is_operator(&self) -> (b: bool)
        ensures
            b == (*self is Comma || *self is Dot || *self is Asterisk || *self is Plus || *self
                is Minus || *self is Slash || *self is Percent || *self is LeftParen || *self
                is RightParen),
    {
        match self {
            Symbol::Comma
            | Symbol::Dot
            | Symbol::Asterisk
            | Symbol::Plus
            | Symbol::Minus
            | Symbol::Slash
            | Symbol::Percent
            | Symbol::LeftParen
            | Symbol::RightParen => true,
            _ => false,
        }
    }

    /// Whether this symbol compares two values.
    pub fn is_comparator(&self) -> (b: bool)
        ensures
            b == (*self is Equal || *self is NotEqual || *self is LessThan || *self is GreaterThan
                || *self is LessThanOrEqual || *self is GreaterThanOrEqual),
    {
        match self {
            Symbol::Equal
            | Symbol::NotEqual
            | Symbol::LessThan
            | Symbol::GreaterThan
            | Symbol::LessThanOrEqual
            | Symbol::GreaterThanOrEqual => true,
            _ => false,
        }
    }

    /// The spelling of this symbol.
    pub open spec fn spelling(self) -> Seq<char> {
        match self {
            Symbol::Comma => ","@,
            Symbol::Dot => "."@,
            Symbol::Asterisk => "*"@,
            Symbol::Plus => "+"@,
            Symbol::Minus => "-"@,
            Symbol::Slash => "/"@,
            Symbol::Percent => "%"@,
            Symbol::Equal => "="@,
            Symbol::NotEqual => "!="@,
            Symbol::LessThan => "<"@,
            Symbol::GreaterThan => ">"@,
            Symbol::LessThanOrEqual => "<="@,
            Symbol::GreaterThanOrEqual => ">="@,
            Symbol::LeftParen => "("@,
            Symbol::RightParen => ")"@,
            Symbol::Semicolon => ";"@,
            Symbol::LeftBracket => "["@,
            Symbol::RightBracket => "]"@,
        }
    }

    /// The spelling of this symbol.
    pub fn to_text(&self) -> (text: String)
        ensures
            text@ == self.spelling(),
    {
        match self {
            Symbol::Comma => ",".to_owned(),
            Symbol::Dot => ".".to_owned(),
            Symbol::Asterisk => "*".to_owned(),
            Symbol::Plus => "+".to_owned(),
            Symbol::Minus => "-".to_owned(),
            Symbol::Slash => "/".to_owned(),
            Symbol::Percent => "%".to_owned(),
            Symbol::Equal => "=".to_owned(),
            Symbol::NotEqual => "!=".to_owned(),
            Symbol::LessThan => "<".to_owned(),
            Symbol::GreaterThan => ">".to_owned(),
            Symbol::LessThanOrEqual => "<=".to_owned(),
            Symbol::GreaterThanOrEqual => ">=".to_owned(),
            Symbol::LeftParen => "(".to_owned(),
            Symbol::RightParen => ")".to_owned(),
            Symbol::Semicolon => ";".to_owned(),
            Symbol::LeftBracket => "[".to_owned(),
            Symbol::RightBracket => "]".to_owned(),
        }
    }
}

/// The symbol that `s` spells, if it spells one.
pub fn to_symbol(s: &str) -> (r: Option<Symbol>)
    ensures
        r == symbol_of(s@),
{
    let chars = crate::text::chars_of(s);
    if chars.len() == 1 {
        assert(s@ =~= seq![chars@[0]]);
        symbol_from(chars[0], false)
    } else if chars.len() == 2 && chars[1] == '=' {
        assert(s@ =~= seq![chars@[0], '=']);
        symbol_from(chars[0], true)
    } else {
        proof {
            assert(seq![','].len() == 1 && seq!['.'].len() == 1 && seq!['*'].len() == 1 && seq![
                '+',
            ].len() == 1 && seq!['-'].len() == 1 && seq!['/'].len() == 1 && seq!['%'].len() == 1
                && seq!['='].len() == 1 && seq!['<'].len() == 1 && seq!['>'].len() == 1 && seq![
                '(',
            ].len() == 1 && seq![')'].len() == 1 && seq![';'].len() == 1 && seq!['['].len() == 1
                && seq![']'].len() == 1);
            assert(seq!['!', '='].len() == 2 && seq!['<', '='].len() == 2 && seq!['>', '='].len()
                == 2);
            assert(seq!['!', '='][1] == '=' && seq!['<', '='][1] == '=' && seq!['>', '='][1]
                == '=');
        }
        None
    }
}

/// What a character knows of the symbol it starts.
pub trait SymbolExtChar {
    /// Whether the character starts a two-character symbol in `chars`,
    /// where it stands at `pos`: it is `!`, `<` or `>` and `=` follows.
    fn has_next(&self, chars: &Vec<char>, pos: usize) -> (b: bool)
        requires
            pos < chars@.len(),
    ;
}

/// Whether `c`, standing at `pos`, starts a two-character symbol.
pub open spec fn starts_pair(c: char, chars: Seq<char>, pos: int) -> bool {
    (c == '!' || c == '<' || c == '>') && pos + 1 < chars.len() && chars[pos + 1] == '='
}

impl SymbolExtChar for char {
    fn has_next(&self, chars: &Vec<char>, pos: usize) -> (b: bool)
        ensures
            b == starts_pair(*self, chars@, pos as int),
    {
        let len: usize = chars.len();
        if *self == '!' || *self == '<' || *self == '>' {
            pos + 1 < len && chars[pos + 1] == '='
        } else {
            false
        }
    }
}

} // verus!
