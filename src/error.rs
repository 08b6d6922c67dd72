//! What can go wrong while reading a path or walking a document.
use vstd::prelude::*;

use crate::value::Type;

verus! {

/// The errors of this crate.
#[derive(Debug, Clone, PartialEq, Eq)]
pub enum ErrorKind {
    /// The path is the empty string.
    EmptyQueryError,
    /// A segment of the path is empty.
    EmptyIdentifier,
    /// A bracketed segment does not hold an integer.
    ArrayAccessWithoutIndex,
    /// An index was applied to a table.
    NoIndexInTable(i64),
    /// An identifier was applied to an array.
    NoIdentifierInArray(String),
    /// An identifier was applied to a scalar.
    QueryingValueAsTable(String),
    /// An index was applied to a scalar.
    QueryingValueAsArray(i64),
    /// A value of the second type was found where the first was expected.
    TypeError(Type, Type),
    /// Nothing was found at the path.
    NotAvailable(String),
}

/// The mathematical content of an `ErrorKind`.
pub enum Fault {
    EmptyQueryError,
    EmptyIdentifier,
    ArrayAccessWithoutIndex,
    NoIndexInTable(i64),
    NoIdentifierInArray(Seq<char>),
    QueryingValueAsTable(Seq<char>),
    QueryingValueAsArray(i64),
    TypeError(Type, Type),
    NotAvailable(Seq<char>),
}

impl View for ErrorKind {
    type V = Fault;

    open spec fn view(&self) -> Fault {
        match self {
            ErrorKind::EmptyQueryError => Fault::EmptyQueryError,
            ErrorKind::EmptyIdentifier => Fault::EmptyIdentifier,
            ErrorKind::ArrayAccessWithoutIndex => Fault::ArrayAccessWithoutIndex,
            ErrorKind::NoIndexInTable(i) => Fault::NoIndexInTable(*i),
            ErrorKind::NoIdentifierInArray(s) => Fault::NoIdentifierInArray(s@),
            ErrorKind::QueryingValueAsTable(s) => Fault::QueryingValueAsTable(s@),
            ErrorKind::QueryingValueAsArray(i) => Fault::QueryingValueAsArray(*i),
            ErrorKind::TypeError(a, b) => Fault::TypeError(*a, *b),
            ErrorKind::NotAvailable(s) => Fault::NotAvailable(s@),
        }
    }
}

/// The error of an operation that may fail in this crate's way or in a caller's own way.
pub enum Error<E> {
    TomlQueryError(ErrorKind),
    Other(E),
}

impl<E> From<E> for Error<E> {
    fn from(e: E) -> (r: Error<E>)
        ensures
            r == Error::<E>::Other(e),
    {
        Error::Other(e)
    }
}

impl<E> vstd::std_specs::convert::FromSpecImpl<E> for Error<E> {
    open spec fn obeys_from_spec() -> bool {
        true
    }

    open spec fn from_spec(e: E) -> Error<E> {
        Error::Other(e)
    }
}

} // verus!
