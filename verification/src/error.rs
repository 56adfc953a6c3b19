//! Error taxonomy: I/O, serialization, validation, state and prescription
//! failures. Each variant carries a plain message.

use vstd::prelude::*;

verus! {

/// Core error type for library operations.
#[derive(Debug)]
pub enum Error {
    /// An input/output failure reported by the surrounding application.
    Io(String),
    /// A malformed stored record.
    Json(String),
    /// A malformed archive row.
    Csv(String),
    /// A malformed configuration document.
    Toml(String),
    /// A configuration validation failure.
    Config(String),
    /// A catalog validation failure.
    CatalogValidation(String),
    /// A state management failure.
    State(String),
    /// A prescription engine failure.
    Prescription(String),
    /// Any other failure.
    Other(String),
}

impl Error {
    /// The plain message carried by the error.
    pub fn message(&self) -> (r: &str)
        ensures
            r@ == self@.1,
    {
        match self {
            Error::Io(m) => m.as_str(),
            Error::Json(m) => m.as_str(),
            Error::Csv(m) => m.as_str(),
            Error::Toml(m) => m.as_str(),
            Error::Config(m) => m.as_str(),
            Error::CatalogValidation(m) => m.as_str(),
            Error::State(m) => m.as_str(),
            Error::Prescription(m) => m.as_str(),
            Error::Other(m) => m.as_str(),
        }
    }
}

/// Kind of an error, for contracts that pin down which variant comes back.
#[derive(Clone, Copy, Debug, PartialEq, Eq, Structural)]
pub enum ErrorKind {
    Io,
    Json,
    Csv,
    Toml,
    Config,
    CatalogValidation,
    State,
    Prescription,
    Other,
}

impl View for Error {
    type V = (ErrorKind, Seq<char>);

    open spec fn view(&self) -> (ErrorKind, Seq<char>) {
        match self {
            Error::Io(m) => (ErrorKind::Io, m@),
            Error::Json(m) => (ErrorKind::Json, m@),
            Error::Csv(m) => (ErrorKind::Csv, m@),
            Error::Toml(m) => (ErrorKind::Toml, m@),
            Error::Config(m) => (ErrorKind::Config, m@),
            Error::CatalogValidation(m) => (ErrorKind::CatalogValidation, m@),
            Error::State(m) => (ErrorKind::State, m@),
            Error::Prescription(m) => (ErrorKind::Prescription, m@),
            Error::Other(m) => (ErrorKind::Other, m@),
        }
    }
}

} // verus!
