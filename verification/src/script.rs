//! What crosses the border to scripts: errors and type descriptions.

use vstd::prelude::*;
use vstd::string::*;

verus! {

/// The constructor of the exception that a script sees.
#[derive(Clone, Copy, Debug, PartialEq, Eq, Structural)]
pub enum ErrorKind {
    TypeError,
    RangeError,
    InternalError,
    /// An exception that the script's engine has thrown itself.
    Thrown,
}

/// An exception to be thrown into a script.
#[derive(Debug)]
pub struct ScriptError {
    pub kind: ErrorKind,
    pub message: String,
}

impl ScriptError {
    pub open spec fn view(&self) -> (ErrorKind, Seq<char>) {
        (self.kind, self.message@)
    }

    /// The same exception once more.
    pub fn again(&self) -> (error: ScriptError)
        ensures
            error@ == self@,
    {
        ScriptError { kind: self.kind, message: self.message.clone() }
    }
}

/// A `TypeError` with the given message.
pub fn type_error(message: &str) -> (error: ScriptError)
    ensures
        error@ == (ErrorKind::TypeError, message@),
{
    ScriptError { kind: ErrorKind::TypeError, message: String::from_str(message) }
}

/// A `RangeError` with the given message.
pub fn range_error(message: &str) -> (error: ScriptError)
    ensures
        error@ == (ErrorKind::RangeError, message@),
{
    ScriptError { kind: ErrorKind::RangeError, message: String::from_str(message) }
}

/// An `InternalError` with the given message.
pub fn internal_error(message: &str) -> (error: ScriptError)
    ensures
        error@ == (ErrorKind::InternalError, message@),
{
    ScriptError { kind: ErrorKind::InternalError, message: String::from_str(message) }
}

/// Two pieces of text in a row.
pub fn joined(front: &str, back: &str) -> (text: String)
    ensures
        text@ == front@ + back@,
{
    let mut text: String = String::from_str(front);
    text.append(back);
    text
}

/// A type as a script describes it.
#[derive(Debug)]
pub enum ScriptType {
    /// A string.
    Name(String),
    /// A value that is no string but converts to one.
    Convertible(String),
    /// An array of types.
    List(Vec<ScriptType>),
    /// A value that could not be read.
    Failed(ScriptError),
    /// Anything else.
    Opaque,
}

} // verus!
