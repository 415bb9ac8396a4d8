//! Error types surfaced to callers of the library.

use vstd::prelude::*;
use vstd::string::*;

verus! {

/// Errors of the configuration layer.
#[derive(Debug)]
pub enum ConfigError {
    /// A config location string that names neither known location.
    InvalidLocation(String),
}

impl ConfigError {
    /// A human-readable description of the error.
    pub fn message(&self) -> (r: String)
        ensures
            self matches ConfigError::InvalidLocation(s) ==> r@ == "invalid config location: "@
                + s@,
    {
        match self {
            ConfigError::InvalidLocation(s) => String::from_str(
                "invalid config location: ",
            ).concat(s.as_str()),
        }
    }
}

/// Errors surfaced by the library's operations.
#[derive(Debug)]
pub enum ReflectionsError {
    /// A required input location is missing; holds the missing path.
    NotFound(String),
    /// A malformed top-level input document; holds a description.
    InvalidData(String),
    /// An error from the configuration layer.
    Config(ConfigError),
}

impl ReflectionsError {
    /// A human-readable description of the error.
    pub fn message(&self) -> (r: String)
        ensures
            self matches ReflectionsError::NotFound(s) ==> r@ == "not found: "@ + s@,
            self matches ReflectionsError::InvalidData(s) ==> r@ == "invalid data: "@ + s@,
            self matches ReflectionsError::Config(ConfigError::InvalidLocation(s)) ==> r@
                == "invalid config location: "@ + s@,
    {
        match self {
            ReflectionsError::NotFound(s) => String::from_str("not found: ").concat(s.as_str()),
            ReflectionsError::InvalidData(s) => String::from_str("invalid data: ").concat(
                s.as_str(),
            ),
            ReflectionsError::Config(e) => e.message(),
        }
    }
}

} // verus!
