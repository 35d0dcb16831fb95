//! The engine's error type.
use vstd::prelude::*;

verus! {

/// An error of the SQL engine. Each variant carries its message.
#[derive(Debug)]
pub enum Error {
    /// A fault inside the engine, or a runtime type error of a builtin.
    InternalError(String),
    /// A name or parameter that does not resolve while binding.
    BindError(String),
    /// A key that does not fit the table's declared key columns.
    Schema(String),
    /// A transaction-state violation.
    Transaction(String),
    /// A reference to a table the catalog does not hold.
    UnboundTable(String),
    /// A prepared statement whose tables changed since it was prepared.
    StalePreparedStatement(String),
    /// A construct the engine does not support.
    Unsupported(String),
    /// A failed read or write of a file.
    IoError(String),
    /// A call of a function that does not exist, or with the wrong argument count.
    UnknownFunction(String),
    /// Input text that does not lex.
    SyntaxError(String),
}

impl Error {
    /// A copy of this error.
    pub fn duplicate(&self) -> (r: Error)
        ensures
            r == *self,
    {
        match self {
            Error::InternalError(m) => Error::InternalError(m.clone()),
            Error::BindError(m) => Error::BindError(m.clone()),
            Error::Schema(m) => Error::Schema(m.clone()),
            Error::Transaction(m) => Error::Transaction(m.clone()),
            Error::UnboundTable(m) => Error::UnboundTable(m.clone()),
            Error::StalePreparedStatement(m) => Error::StalePreparedStatement(m.clone()),
            Error::Unsupported(m) => Error::Unsupported(m.clone()),
            Error::IoError(m) => Error::IoError(m.clone()),
            Error::UnknownFunction(m) => Error::UnknownFunction(m.clone()),
            Error::SyntaxError(m) => Error::SyntaxError(m.clone()),
        }
    }
}

} // verus!
