//! Statements: what a command line asks for.
use vstd::prelude::*;
use crate::cmd::token::token::{Token, TokenView};
use crate::text::{debug_of_text, debug_string};

verus! {

/// The type that an `add` statement gives its value.
#[derive(Debug, PartialEq, Eq)]
pub enum ValueType {
    Null,
    Bool,
    Int32,
    Int64,
    Float32,
    Float64,
    Char,
    String,
    Array(Box<ValueType>),
}

/// A value as it was written, before it is given its type.
#[derive(Debug, PartialEq, Eq)]
pub enum ValueP {
    Identifier(String),
    Number(String),
    Bool(bool),
    Array(Box<Vec<ValueP>>),
}

/// The mathematical content of a [`ValueP`].
pub enum ValuePView {
    Identifier(Seq<char>),
    Number(Seq<char>),
    Bool(bool),
    Array(Seq<ValuePView>),
}

/// What `list` lists.
#[derive(Clone, Copy, Debug, PartialEq, Eq, Structural)]
pub enum List {
    Values,
    Entries,
}

/// An account as `user create` names it.
#[derive(Debug, PartialEq, Eq)]
pub struct UserInfo {
    pub name: String,
    pub password: String,
    pub level: String,
}

/// The content of a [`UserInfo`].
pub struct UserInfoView {
    pub name: Seq<char>,
    pub password: Seq<char>,
    pub level: Seq<char>,
}

/// What `user` does.
#[derive(Debug, PartialEq, Eq)]
pub enum UserCmd {
    Create { info: UserInfo },
    Delete { name: String },
}

/// The content of a [`UserCmd`].
pub enum UserCmdView {
    Create { info: UserInfoView },
    Delete { name: Seq<char> },
}

/// One statement of the command language.
#[derive(Debug, PartialEq, Eq)]
pub enum Statement {
    Open { file: String },
    Add { key: String, value: ValueP, datatype: ValueType },
    Delete { key: String },
    Get { key: String },
    Compact,
    TypeOf { key: String },
    List { list: List },
    User { cmd: UserCmd },
    Quit,
}

/// The content of a [`Statement`].
pub enum StatementView {
    Open { file: Seq<char> },
    Add { key: Seq<char>, value: ValuePView, datatype: ValueType },
    Delete { key: Seq<char> },
    Get { key: Seq<char> },
    Compact,
    TypeOf { key: Seq<char> },
    List { list: List },
    User { cmd: UserCmdView },
    Quit,
}

/// The views of the first `n` written values of `items`.
pub open spec fn written_views(items: Seq<ValueP>, n: nat) -> Seq<ValuePView>
    decreases items, n,
{
    if n == 0 || n > items.len() {
        Seq::empty()
    } else {
        written_views(items, (n - 1) as nat).push(items[n - 1].view())
    }
}

impl View for ValueP {
    type V = ValuePView;

    open spec fn view(&self) -> ValuePView
        decreases self,
    {
        match self {
            ValueP::Identifier(s) => ValuePView::Identifier(s@),
            ValueP::Number(s) => ValuePView::Number(s@),
            ValueP::Bool(b) => ValuePView::Bool(*b),
            ValueP::Array(items) => ValuePView::Array(written_views(items@, items@.len())),
        }
    }
}

/// `written_views` is the element-wise view.
pub proof fn lemma_written_views(items: Seq<ValueP>, n: nat)
    requires
        n <= items.len(),
    ensures
        written_views(items, n).len() == n,
        forall|i: int| 0 <= i < n ==> (#[trigger] written_views(items, n)[i]) == items[i].view(),
    decreases n,
{
    if n > 0 {
        lemma_written_views(items, (n - 1) as nat);
        assert(written_views(items, n) == written_views(items, (n - 1) as nat).push(
            items[n - 1].view(),
        ));
    } else {
        assert(written_views(items, n) == Seq::<ValuePView>::empty());
    }
}

impl View for UserInfo {
    type V = UserInfoView;

    open spec fn view(&self) -> UserInfoView {
        UserInfoView { name: self.name@, password: self.password@, level: self.level@ }
    }
}

impl View for UserCmd {
    type V = UserCmdView;

    open spec fn view(&self) -> UserCmdView {
        match self {
            UserCmd::Create { info } => UserCmdView::Create { info: info@ },
            UserCmd::Delete { name } => UserCmdView::Delete { name: name@ },
        }
    }
}

impl View for Statement {
    type V = StatementView;

    open spec fn view(&self) -> StatementView {
        match self {
            Statement::Open { file } => StatementView::Open { file: file@ },
            Statement::Add { key, value, datatype } => StatementView::Add {
                key: key@,
                value: value@,
                datatype: *datatype,
            },
            Statement::Delete { key } => StatementView::Delete { key: key@ },
            Statement::Get { key } => StatementView::Get { key: key@ },
            Statement::Compact => StatementView::Compact,
            Statement::TypeOf { key } => StatementView::TypeOf { key: key@ },
            Statement::List { list } => StatementView::List { list: *list },
            Statement::User { cmd } => StatementView::User { cmd: cmd@ },
            Statement::Quit => StatementView::Quit,
        }
    }
}

/// What a token is as a written value.
pub open spec fn token_value(t: Option<TokenView>) -> Option<ValuePView> {
    match t {
        Some(TokenView::Identifier(s)) => Some(ValuePView::Identifier(s)),
        Some(TokenView::Number(n)) => Some(ValuePView::Number(n)),
        Some(TokenView::Bool(b)) => Some(ValuePView::Bool(b)),
        _ => None,
    }
}

/// What a token knows of the value it may be.
pub trait TokenExt {
    fn to_value(&self) -> Option<ValueP>;
}

impl TokenExt for Option<Token> {
    /// The written value that this token is, if it is one.
    fn to_value(&self) -> (r: Option<ValueP>)
        ensures
            match token_value(
                match self {
                    Some(t) => Some(t@),
                    None => None,
                },
            ) {
                Some(v) => r matches Some(value) && value@ == v,
                None => r is None,
            },
    {
        match self {
            Some(Token::Identifier(s)) => Some(ValueP::Identifier(s.clone())),
            Some(Token::Number(n)) => Some(ValueP::Number(n.clone())),
            Some(Token::Bool(b)) => Some(ValueP::Bool(*b)),
            _ => None,
        }
    }
}

/// The name of a type as the derived `Debug` prints it.
pub open spec fn debug_label(t: ValueType) -> Seq<char>
    decreases t,
{
    match t {
        ValueType::Null => "Null"@,
        ValueType::Bool => "Bool"@,
        ValueType::Int32 => "Int32"@,
        ValueType::Int64 => "Int64"@,
        ValueType::Float32 => "Float32"@,
        ValueType::Float64 => "Float64"@,
        ValueType::Char => "Char"@,
        ValueType::String => "String"@,
        ValueType::Array(inner) => "Array("@ + debug_label(*inner) + ")"@,
    }
}

/// How a type is displayed: a scalar by its word, an array by the name of
/// what it holds.
pub open spec fn type_text(t: ValueType) -> Seq<char> {
    match t {
        ValueType::Null => "null"@,
        ValueType::Bool => "bool"@,
        ValueType::Int32 => "int"@,
        ValueType::Int64 => "long"@,
        ValueType::Float32 => "float"@,
        ValueType::Float64 => "double"@,
        ValueType::Char => "char"@,
        ValueType::String => "string"@,
        ValueType::Array(inner) => debug_label(*inner),
    }
}

impl Clone for ValueType {
    fn clone(&self) -> (copy: ValueType)
        ensures
            copy == *self,
        decreases self,
    {
        match self {
            ValueType::Null => ValueType::Null,
            ValueType::Bool => ValueType::Bool,
            ValueType::Int32 => ValueType::Int32,
            ValueType::Int64 => ValueType::Int64,
            ValueType::Float32 => ValueType::Float32,
            ValueType::Float64 => ValueType::Float64,
            ValueType::Char => ValueType::Char,
            ValueType::String => ValueType::String,
            ValueType::Array(inner) => ValueType::Array(Box::new((**inner).clone())),
        }
    }
}

impl ValueType {
    /// The name of this type as `Debug` prints it.
    pub fn debug_text(&self) -> (text: String)
        ensures
            text@ == debug_label(*self),
        decreases self,
    {
        match self {
            ValueType::Null => "Null".to_owned(),
            ValueType::Bool => "Bool".to_owned(),
            ValueType::Int32 => "Int32".to_owned(),
            ValueType::Int64 => "Int64".to_owned(),
            ValueType::Float32 => "Float32".to_owned(),
            ValueType::Float64 => "Float64".to_owned(),
            ValueType::Char => "Char".to_owned(),
            ValueType::String => "String".to_owned(),
            ValueType::Array(inner) => {
                let text = "Array(".to_owned();
                let text = text.concat(inner.debug_text().as_str());
                text.concat(")")
            },
        }
    }

    /// How this type is displayed.
    pub fn to_text(&self) -> (text: String)
        ensures
            text@ == type_text(*self),
    {
        match self {
            ValueType::Null => "null".to_owned(),
            ValueType::Bool => "bool".to_owned(),
            ValueType::Int32 => "int".to_owned(),
            ValueType::Int64 => "long".to_owned(),
            ValueType::Float32 => "float".to_owned(),
            ValueType::Float64 => "double".to_owned(),
            ValueType::Char => "char".to_owned(),
            ValueType::String => "string".to_owned(),
            ValueType::Array(inner) => inner.debug_text(),
        }
    }

    /// Whether this type is a floating-point type or an array of one.
    pub open spec fn floating(self) -> bool
        decreases self,
    {
        match self {
            ValueType::Float32 => true,
            ValueType::Float64 => true,
            ValueType::Array(inner) => inner.floating(),
            _ => false,
        }
    }

    /// Whether this type is a floating-point type or an array of one.
    pub fn is_floating(&self) -> (b: bool)
        ensures
            b == self.floating(),
        decreases self,
    {
        match self {
            ValueType::Float32 => true,
            ValueType::Float64 => true,
            ValueType::Array(inner) => inner.is_floating(),
            _ => false,
        }
    }
}

/// How a written value is printed for debugging: the name of its kind
/// and, in parentheses, what it holds.
pub open spec fn written_debug(v: ValuePView) -> Seq<char>
    decreases v,
{
    match v {
        ValuePView::Identifier(s) => "Identifier("@ + debug_string(s) + ")"@,
        ValuePView::Number(s) => "Number("@ + debug_string(s) + ")"@,
        ValuePView::Bool(b) => if b {
            "Bool(true)"@
        } else {
            "Bool(false)"@
        },
        ValuePView::Array(items) => "Array("@ + row_debug(items) + ")"@,
    }
}

/// The first `n` written values of a row, printed for debugging and
/// separated by a comma and a blank.
pub open spec fn joined_debug(items: Seq<ValuePView>, n: nat) -> Seq<char>
    decreases items, n,
{
    if n == 0 || n > items.len() {
        Seq::empty()
    } else if n == 1 {
        written_debug(items[0])
    } else {
        joined_debug(items, (n - 1) as nat) + ", "@ + written_debug(items[n - 1])
    }
}

/// A row of written values printed for debugging: in brackets.
pub open spec fn row_debug(items: Seq<ValuePView>) -> Seq<char>
    decreases items, items.len() + 1,
{
    "["@ + joined_debug(items, items.len()) + "]"@
}

/// The text of a written value: of an identifier or a number what was
/// written, of a truth value `true` or `false`, of an array its debug
/// text.
pub open spec fn written_text(v: ValuePView) -> Seq<char> {
    match v {
        ValuePView::Identifier(s) => s,
        ValuePView::Number(s) => s,
        ValuePView::Bool(b) => if b {
            "true"@
        } else {
            "false"@
        },
        ValuePView::Array(items) => row_debug(items),
    }
}

impl ValueP {
    /// A copy of this written value.
    #[verifier::loop_isolation(false)]
    pub fn duplicate(&self) -> (copy: ValueP)
        ensures
            copy@ == self@,
        decreases self,
    {
        match self {
            ValueP::Identifier(s) => ValueP::Identifier(s.clone()),
            ValueP::Number(s) => ValueP::Number(s.clone()),
            ValueP::Bool(b) => ValueP::Bool(*b),
            ValueP::Array(items) => {
                let mut copies: Vec<ValueP> = Vec::new();
                let mut i: usize = 0;
                while i < items.len()
                    invariant
                        i <= items@.len(),
                        copies@.len() == i,
                        forall|j: int| 0 <= j < i ==> (#[trigger] copies@[j])@ == items@[j]@,
                    decreases items@.len() - i,
                {
                    proof {
                        vstd::std_specs::vec::axiom_vec_index_decreases(**items, i as int);
                    }
                    let item = items[i].duplicate();
                    copies.push(item);
                    i += 1;
                }
                proof {
                    lemma_written_views(items@, items@.len());
                    lemma_written_views(copies@, copies@.len());
                    assert(written_views(copies@, copies@.len()) =~= written_views(
                        items@,
                        items@.len(),
                    ));
                }
                ValueP::Array(Box::new(copies))
            },
        }
    }

    /// How this written value is printed for debugging.
    #[verifier::loop_isolation(false)]
    pub fn debug_text(&self) -> (text: String)
        ensures
            text@ == written_debug(self@),
        decreases self,
    {
        match self {
            ValueP::Identifier(s) => {
                let text = "Identifier(".to_owned();
                let text = text.concat(debug_of_text(s.as_str()).as_str());
                text.concat(")")
            },
            ValueP::Number(s) => {
                let text = "Number(".to_owned();
                let text = text.concat(debug_of_text(s.as_str()).as_str());
                text.concat(")")
            },
            ValueP::Bool(b) => if *b {
                "Bool(true)".to_owned()
            } else {
                "Bool(false)".to_owned()
            },
            ValueP::Array(items) => {
                let text = "Array(".to_owned();
                let text = text.concat(Self::debug_row(items).as_str());
                text.concat(")")
            },
        }
    }

    /// How a row of written values is printed for debugging.
    #[verifier::loop_isolation(false)]
    fn debug_row(items: &Vec<ValueP>) -> (text: String)
        ensures
            text@ == row_debug(written_views(items@, items@.len())),
        decreases items,
    {
        let ghost views = written_views(items@, items@.len());
        proof {
            lemma_written_views(items@, items@.len());
        }
        let mut text = "[".to_owned();
        let mut i: usize = 0;
        assert(text@ =~= "["@ + joined_debug(views, 0));
        while i < items.len()
            invariant
                i <= items@.len(),
                text@ == "["@ + joined_debug(views, i as nat),
            decreases items@.len() - i,
        {
            proof {
                vstd::std_specs::vec::axiom_vec_index_decreases(*items, i as int);
            }
            if i > 0 {
                text = text.concat(", ");
            }
            text = text.concat(items[i].debug_text().as_str());
            i += 1;
            assert(text@ =~= "["@ + joined_debug(views, i as nat));
        }
        text.concat("]")
    }

    /// The text of this written value: of an identifier or a number what
    /// was written, of a truth value `true` or `false`, of an array its
    /// debug text.
    pub fn get_str(&self) -> (text: String)
        ensures
            text@ == written_text(self@),
    {
        match self {
            ValueP::Identifier(s) => s.clone(),
            ValueP::Number(s) => s.clone(),
            ValueP::Bool(b) => if *b {
                "true".to_owned()
            } else {
                "false".to_owned()
            },
            ValueP::Array(a) => Self::debug_row(a),
        }
    }
}

impl Clone for ValueP {
    fn clone(&self) -> (copy: ValueP)
        ensures
            copy@ == self@,
    {
        self.duplicate()
    }
}

} // verus!
