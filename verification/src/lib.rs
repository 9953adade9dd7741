//! Self-organizing maps with an arbitrary number of layers (Super-SOMs).
//!
//! The library holds the structure of the method: the table of cells, the
//! grid and its neighborhoods, the search for the best matching unit, the
//! schema of an input table and the layout of the result tables. Numbers are
//! carried as [`num::Num`] and are only ordered and told apart here; whoever
//! uses the library does the arithmetic on them.

pub mod calc;
pub mod cli;
pub mod data;
pub mod map;
pub mod num;
pub mod proc;
pub mod text;

use vstd::prelude::*;

verus! {

/// Error type for failed parsing of strings to enums.
#[derive(Debug, Clone, PartialEq, Eq)]
pub struct ParseEnumError(pub String);

impl ParseEnumError {
    /// The message.
    pub fn to_string(&self) -> (s: String)
        ensures
            s@ == self.0@,
    {
        self.0.clone()
    }
}

/// Error type for wrong data type.
#[derive(Debug, Clone, PartialEq, Eq)]
pub struct DataTypeError(pub String);

impl DataTypeError {
    /// The message.
    pub fn to_string(&self) -> (s: String)
        ensures
            s@ == self.0@,
    {
        self.0.clone()
    }
}

/// Error type for parameters that do not fit together.
#[derive(Debug, Clone, PartialEq, Eq)]
pub struct ConfigError(pub String);

impl ConfigError {
    /// The message.
    pub fn to_string(&self) -> (s: String)
        ensures
            s@ == self.0@,
    {
        self.0.clone()
    }
}

/// The message of a failed parse: what was read, between the words that
/// name the enum and its values.
pub open spec fn enum_message(head: Seq<char>, found: Seq<char>, tail: Seq<char>) -> Seq<char> {
    head + found + tail
}

/// Builds the error for a text that names no value of an enum.
pub fn enum_error(head: &str, found: &str, tail: &str) -> (e: ParseEnumError)
    ensures
        e.0@ == enum_message(head@, found@, tail@),
{
    ParseEnumError(String::from_str(head).concat(found).concat(tail))
}

} // verus!
