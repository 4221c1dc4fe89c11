//! Errors of the discovery and reporting engine.

use vstd::prelude::*;
use crate::text::{chars_of, push_all, string_of};

verus! {

#[verifier::external_type_specification]
#[verifier::external_body]
pub struct ExIoError(std::io::Error);

/// The failures the engine reports.
#[derive(Debug)]
pub enum TestamentError {
    /// No solution or project descriptor was found.
    NoSolutionFound,
    /// A file could not be read.
    FileRead { path: std::path::PathBuf, source: std::io::Error },
    /// A solution descriptor could not be parsed.
    SolutionParse(String),
    /// The external test tool failed.
    DotnetExecution(String),
    /// A result report could not be parsed.
    TrxParse(String),
    /// Any other input/output failure.
    Io(std::io::Error),
}

/// Result of the engine's fallible operations.
pub type Result<T> = std::result::Result<T, TestamentError>;

/// Relies on `Path::display`: the path as text.
#[verifier::external_body]
fn path_text(p: &std::path::PathBuf) -> String {
    format!("{}", p.display())
}

/// Relies on `std::io::Error`'s `Display`: the error's own description.
#[verifier::external_body]
fn io_error_text(e: &std::io::Error) -> String {
    format!("{}", e)
}

/// Relies on `std::io::Error::other`: an error of kind `Other` carrying `message`.
#[verifier::external_body]
pub(crate) fn other_io_error(message: String) -> std::io::Error {
    std::io::Error::other(message)
}

/// `prefix` followed by `rest`.
fn prefixed(prefix: &str, rest: &str) -> (r: String)
    ensures
        r@ == prefix@ + rest@,
{
    let mut v = chars_of(prefix);
    let rc = chars_of(rest);
    push_all(&mut v, rc.as_slice());
    string_of(v.as_slice())
}

impl TestamentError {
    /// The message shown to the operator.
    pub fn message(&self) -> (r: String)
        ensures
            self is NoSolutionFound ==> r@ == "No solution file found"@,
            self is SolutionParse ==> r@ == "Failed to parse solution file: "@ + self->SolutionParse_0@,
            self is DotnetExecution ==> r@ == "Failed to run dotnet: "@ + self->DotnetExecution_0@,
            self is TrxParse ==> r@ == "Failed to parse TRX file: "@ + self->TrxParse_0@,
    {
        match self {
            TestamentError::NoSolutionFound => string_of(chars_of("No solution file found").as_slice()),
            TestamentError::FileRead { path, .. } => prefixed("Failed to read file: ", path_text(path).as_str()),
            TestamentError::SolutionParse(m) => prefixed("Failed to parse solution file: ", m.as_str()),
            TestamentError::DotnetExecution(m) => prefixed("Failed to run dotnet: ", m.as_str()),
            TestamentError::TrxParse(m) => prefixed("Failed to parse TRX file: ", m.as_str()),
            TestamentError::Io(e) => prefixed("IO error: ", io_error_text(e).as_str()),
        }
    }
}

impl From<std::io::Error> for TestamentError {
    fn from(e: std::io::Error) -> (r: Self) {
        TestamentError::Io(e)
    }
}

impl vstd::std_specs::convert::FromSpecImpl<std::io::Error> for TestamentError {
    open spec fn obeys_from_spec() -> bool {
        true
    }

    open spec fn from_spec(e: std::io::Error) -> Self {
        TestamentError::Io(e)
    }
}

} // verus!
