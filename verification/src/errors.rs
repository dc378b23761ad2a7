//! Error kinds shared by every fallible operation of the engine.

use vstd::prelude::*;
use vstd::string::StringExecFns;

verus! {

/// Failure of a store or tool operation.
///
/// `NotFound` carries the missing identifier; the other variants carry a
/// short human-readable message.
#[derive(Debug)]
pub enum IcmError {
    /// The referenced memory, memoir, concept or link does not exist.
    NotFound(String),
    /// A substrate failure: constraint violation, corrupted index, I/O.
    Database(String),
    /// A column value could not be encoded or decoded.
    Serialization(String),
    /// Malformed persistent configuration.
    Config(String),
    /// The optional embedding capability failed.
    Embedding(String),
}

impl IcmError {
    /// Render the error as a short human-readable line.
    pub fn describe(&self) -> (r: String)
        ensures
            r@ == self.describe_spec(),
    {
        let mut out = String::new();
        match self {
            IcmError::NotFound(id) => {
                out.append("not found: ");
                out.append(id.as_str());
            },
            IcmError::Database(m) => {
                out.append("database error: ");
                out.append(m.as_str());
            },
            IcmError::Serialization(m) => {
                out.append("serialization error: ");
                out.append(m.as_str());
            },
            IcmError::Config(m) => {
                out.append("config error: ");
                out.append(m.as_str());
            },
            IcmError::Embedding(m) => {
                out.append("embedding error: ");
                out.append(m.as_str());
            },
        }
        out
    }

    /// What `describe` returns, at the specification level.
    pub open spec fn describe_spec(&self) -> Seq<char> {
        match self {
            IcmError::NotFound(id) => "not found: "@ + id@,
            IcmError::Database(m) => "database error: "@ + m@,
            IcmError::Serialization(m) => "serialization error: "@ + m@,
            IcmError::Config(m) => "config error: "@ + m@,
            IcmError::Embedding(m) => "embedding error: "@ + m@,
        }
    }
}

/// Result alias used across the engine.
pub type IcmResult<T> = Result<T, IcmError>;

} // verus!
