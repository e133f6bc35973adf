//! Error taxonomies: one for generation, one for run-time calls.
use vstd::prelude::*;

verus! {

#[verifier::external_type_specification]
#[verifier::external_body]
pub struct ExJsonError(serde_json::Error);

#[verifier::external_type_specification]
#[verifier::external_body]
pub struct ExIoError(std::io::Error);

/// Relies on `serde_json::Error`'s `Display`: the error's description.
#[verifier::external_body]
fn json_error_text(e: &serde_json::Error) -> String {
    format!("{}", e)
}

/// Relies on `std::io::Error`'s `Display`: the error's description.
#[verifier::external_body]
fn io_error_text(e: &std::io::Error) -> String {
    format!("{}", e)
}

/// A failure while generating routing and schema source. Any of these
/// aborts generation as a whole.
#[derive(Debug)]
pub enum BuildError {
    /// Filesystem access failed.
    Io(std::io::Error),
    /// A unit directory's name is not text, or a registered unit's name is
    /// not a valid identifier.
    InvalidName(String),
    /// The schema bundle could not be serialized.
    Json(serde_json::Error),
    /// A template could not be read, or lacks a placeholder it must carry.
    Template(String),
}

impl BuildError {
    /// A one-line description: the kind of failure, then its detail.
    pub fn message(&self) -> (r: String)
        ensures
            self matches BuildError::InvalidName(n) ==> r@ == "Invalid directory name: "@ + n@,
            self matches BuildError::Template(m) ==> r@ == "Template error: "@ + m@,
            self is Io ==> r@.len() >= 10 && r@.subrange(0, 10) == "IO error: "@,
            self is Json ==> r@.len() >= 12 && r@.subrange(0, 12) == "JSON error: "@,
    {
        proof {
            reveal_strlit("IO error: ");
            reveal_strlit("JSON error: ");
        }
        let (prefix, detail) = match self {
            BuildError::Io(e) => ("IO error: ", io_error_text(e)),
            BuildError::InvalidName(n) => ("Invalid directory name: ", n.clone()),
            BuildError::Json(e) => ("JSON error: ", json_error_text(e)),
            BuildError::Template(m) => ("Template error: ", m.clone()),
        };
        let r = String::from_str(prefix).concat(detail.as_str());
        assert(r@.subrange(0, prefix@.len() as int) =~= prefix@);
        r
    }
}

/// Classification of a failed run-time call.
#[derive(Debug, Clone, Copy, PartialEq, Eq, Structural)]
pub enum ErrorCode {
    /// The connection data lacks what a client needs.
    Misconfigured,
    /// An outbound call answered with something that is not the expected JSON.
    MalformedResponse,
    /// The requested handler or schema does not exist.
    NotFound,
    /// Any other failure.
    Other,
}

/// A classified run-time error with a human-readable message.
#[derive(Debug, Clone)]
pub struct AppError {
    pub code: ErrorCode,
    pub message: String,
}

/// Builds an `AppError` from a code and a literal message.
pub fn app_error(code: ErrorCode, message: &str) -> (r: AppError)
    ensures
        r.code == code,
        r.message@ == message@,
{
    AppError { code, message: message.to_owned() }
}

} // verus!
