//! The error kinds of the engine.
use vstd::prelude::*;

verus! {

/// What went wrong, with a human-readable detail.
#[derive(Debug, Clone)]
pub enum CoreError {
    JsError(String),
    StorageError(String),
    RelayError(String),
    SignerError(String),
    ParseError(String),
    Other(String),
}

impl CoreError {
    /// The detail carried by the error.
    pub fn detail(&self) -> (r: &String)
        ensures
            r == match self {
                CoreError::JsError(s) => s,
                CoreError::StorageError(s) => s,
                CoreError::RelayError(s) => s,
                CoreError::SignerError(s) => s,
                CoreError::ParseError(s) => s,
                CoreError::Other(s) => s,
            },
    {
        match self {
            CoreError::JsError(s) => s,
            CoreError::StorageError(s) => s,
            CoreError::RelayError(s) => s,
            CoreError::SignerError(s) => s,
            CoreError::ParseError(s) => s,
            CoreError::Other(s) => s,
        }
    }

    /// The error as a sentence: its kind, then its detail.
    pub fn message(&self) -> (r: String)
        ensures
            r@ == error_prefix(*self) + error_detail(*self),
    {
        let mut s = match self {
            CoreError::JsError(_) => String::from_str("JavaScript error: "),
            CoreError::StorageError(_) => String::from_str("Storage error: "),
            CoreError::RelayError(_) => String::from_str("Relay error: "),
            CoreError::SignerError(_) => String::from_str("Signer error: "),
            CoreError::ParseError(_) => String::from_str("Parse error: "),
            CoreError::Other(_) => String::new(),
        };
        s.append(self.detail().as_str());
        s
    }

    /// Whether this is a parse error.
    pub fn is_parse_error(&self) -> (r: bool)
        ensures
            r == (self is ParseError),
    {
        match self {
            CoreError::ParseError(_) => true,
            _ => false,
        }
    }
}

/// The words that introduce an error of each kind.
pub open spec fn error_prefix(e: CoreError) -> Seq<char> {
    match e {
        CoreError::JsError(_) => "JavaScript error: "@,
        CoreError::StorageError(_) => "Storage error: "@,
        CoreError::RelayError(_) => "Relay error: "@,
        CoreError::SignerError(_) => "Signer error: "@,
        CoreError::ParseError(_) => "Parse error: "@,
        CoreError::Other(_) => Seq::empty(),
    }
}

/// The detail carried by an error.
pub open spec fn error_detail(e: CoreError) -> Seq<char> {
    match e {
        CoreError::JsError(s) => s@,
        CoreError::StorageError(s) => s@,
        CoreError::RelayError(s) => s@,
        CoreError::SignerError(s) => s@,
        CoreError::ParseError(s) => s@,
        CoreError::Other(s) => s@,
    }
}

} // verus!
