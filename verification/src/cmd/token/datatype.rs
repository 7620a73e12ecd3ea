//! The type words.
use vstd::prelude::*;

verus! {

/// A type word.
#[derive(Clone, Copy, Debug, PartialEq, Eq, Structural)]
pub enum DataType {
    Null,
    Bool,
    Int32,
    Int64,
    Float32,
    Float64,
    Char,
    String,
    Array,
}

impl DataType {
    /// The display word of this type.
    pub open spec fn word(self) -> Seq<char> {
        match self {
            DataType::Null => "null"@,
            DataType::Bool => "bool"@,
            DataType::Int32 => "int"@,
            DataType::Int64 => "long"@,
            DataType::Float32 => "float"@,
            DataType::Float64 => "double"@,
            DataType::Char => "char"@,
            DataType::String => "string"@,
            DataType::Array => "array"@,
        }
    }

    /// The display word of this type.
    pub fn to_text(&self) -> (text: String)
        ensures
            text@ == self.word(),
    {
        match self {
            DataType::Null => "null".to_owned(),
            DataType::Bool => "bool".to_owned(),
            DataType::Int32 => "int".to_owned(),
            DataType::Int64 => "long".to_owned(),
            DataType::Float32 => "float".to_owned(),
            DataType::Float64 => "double".to_owned(),
            DataType::Char => "char".to_owned(),
            DataType::String => "string".to_owned(),
            DataType::Array => "array".to_owned(),
        }
    }
}

} // verus!
