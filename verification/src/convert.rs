//! Conversion adapters: explicit, total mappings from external failure
//! types — the storage engine's, the filesystem's, the serializer's — into
//! [`AppError`], and the result adapters that turn optional or fallible
//! values into an [`AppError`]-bearing result.

use vstd::prelude::*;
use vstd::string::StringExecFns;

use crate::error::{AppError, ErrorCode, ErrorValue};

verus! {

/// How a storage-engine failure classifies: a broken uniqueness or
/// integrity rule, an unusable connection, or anything else.
#[derive(Clone, Copy, PartialEq, Eq, Structural, Debug)]
pub enum StorageFailureKind {
    Constraint,
    Connection,
    Other,
}

/// What the logic reads of a storage-engine failure: its classification
/// and its reported description.
#[derive(Debug)]
pub struct StorageFailure {
    pub kind: StorageFailureKind,
    pub description: String,
}

/// The category each storage failure classification surfaces as.
pub open spec fn storage_code(kind: StorageFailureKind) -> ErrorCode {
    match kind {
        StorageFailureKind::Constraint => ErrorCode::DbConstraintViolation,
        StorageFailureKind::Connection => ErrorCode::DbConnectionFailed,
        StorageFailureKind::Other => ErrorCode::DbQueryFailed,
    }
}

/// Map a storage-engine failure to the storage variant, branching on its
/// classification: a constraint breach surfaces as the
/// constraint-violation category, an unusable connection as the
/// connection-failure category, anything else as the generic
/// query-failure category.
pub fn storage_failure_to_app_error(f: StorageFailure) -> (r: AppError)
    ensures
        r matches AppError::Database(v) && v.code == storage_code(f.kind) && v.details is None
            && v.field is None && v.cause is None && v.context is None,
        f.description@.len() > 0 ==> r.value().message@ == f.description@,
        f.description@.len() == 0 ==> r.value().message@ == "storage operation failed"@,
        r.wf(),
{
    proof {
        reveal_strlit("storage operation failed");
    }
    let code = match f.kind {
        StorageFailureKind::Constraint => ErrorCode::DbConstraintViolation,
        StorageFailureKind::Connection => ErrorCode::DbConnectionFailed,
        StorageFailureKind::Other => ErrorCode::DbQueryFailed,
    };
    let message = if f.description.as_str().is_empty() {
        "storage operation failed".to_owned()
    } else {
        f.description
    };
    AppError::Database(ErrorValue::new(code, message.as_str()))
}

/// Map a filesystem or IO failure's description to the logging variant
/// with the internal/unexpected category — deliberately so, preserving the
/// routing of general IO failures through the logging category.
pub fn io_failure_to_app_error(description: String) -> (r: AppError)
    ensures
        r matches AppError::Logging(v) && v.code == ErrorCode::InternalError && v.details is None
            && v.field is None && v.cause is None && v.context is None,
        description@.len() > 0 ==> r.value().message@ == description@,
        description@.len() == 0 ==> r.value().message@ == "input/output failure"@,
        r.wf(),
{
    proof {
        reveal_strlit("input/output failure");
    }
    let message = if description.as_str().is_empty() {
        "input/output failure".to_owned()
    } else {
        description
    };
    AppError::Logging(ErrorValue::new(ErrorCode::InternalError, message.as_str()))
}

/// Map a serialization or parsing failure's description to the
/// serialization variant with the serialization-failure category.
pub fn serialization_failure_to_app_error(description: String) -> (r: AppError)
    ensures
        r matches AppError::Serialization(v) && v.code == ErrorCode::SerializationFailed
            && v.details is None && v.field is None && v.cause is None && v.context is None,
        description@.len() > 0 ==> r.value().message@ == description@,
        description@.len() == 0 ==> r.value().message@ == "serialization failure"@,
        r.wf(),
{
    proof {
        reveal_strlit("serialization failure");
    }
    let message = if description.as_str().is_empty() {
        "serialization failure".to_owned()
    } else {
        description
    };
    AppError::Serialization(ErrorValue::new(ErrorCode::SerializationFailed, message.as_str()))
}

/// The storage engine's error type, declared so that values of it can be
/// taken and classified; opaque to the verifier.
#[verifier::external_type_specification]
#[verifier::external_body]
pub struct ExSqliteError(rusqlite::Error);

/// Read what the logic needs of a storage-engine failure.
///
/// Relies on rusqlite::Error: a SqliteFailure variant carries the engine's
/// primary error code, ConstraintViolation for a broken constraint and
/// CannotOpen for a connection that cannot be established, and may carry
/// the engine's message; Display describes every variant.
#[verifier::external_body]
fn classify_sqlite_error(e: &rusqlite::Error) -> StorageFailure {
    match e {
        rusqlite::Error::SqliteFailure(f, msg) => StorageFailure {
            kind: match f.code {
                rusqlite::ffi::ErrorCode::ConstraintViolation => StorageFailureKind::Constraint,
                rusqlite::ffi::ErrorCode::CannotOpen => StorageFailureKind::Connection,
                _ => StorageFailureKind::Other,
            },
            description: match msg {
                Some(m) => m.clone(),
                None => e.to_string(),
            },
        },
        _ => StorageFailure { kind: StorageFailureKind::Other, description: e.to_string() },
    }
}

impl From<rusqlite::Error> for AppError {
    /// A storage-engine failure always surfaces as the storage variant,
    /// with the code its classification owes.
    fn from(e: rusqlite::Error) -> (r: AppError)
        ensures
            r matches AppError::Database(_),
            r.wf(),
    {
        storage_failure_to_app_error(classify_sqlite_error(&e))
    }
}

impl vstd::std_specs::convert::FromSpecImpl<rusqlite::Error> for AppError {
    open spec fn obeys_from_spec() -> bool {
        false
    }

    open spec fn from_spec(e: rusqlite::Error) -> AppError {
        arbitrary()
    }
}

/// The standard IO error type, declared so that values of it can be taken
/// and described; opaque to the verifier.
#[verifier::external_type_specification]
#[verifier::external_body]
pub struct ExIoError(std::io::Error);

/// Read an IO failure's description.
///
/// Relies on std::io::Error: to_string describes the failure.
#[verifier::external_body]
fn io_error_description(e: &std::io::Error) -> String {
    e.to_string()
}

impl From<std::io::Error> for AppError {
    /// A filesystem or IO failure always surfaces as the logging variant
    /// with the internal/unexpected category.
    fn from(e: std::io::Error) -> (r: AppError)
        ensures
            r matches AppError::Logging(v) && v.code == ErrorCode::InternalError,
            r.wf(),
    {
        io_failure_to_app_error(io_error_description(&e))
    }
}

impl vstd::std_specs::convert::FromSpecImpl<std::io::Error> for AppError {
    open spec fn obeys_from_spec() -> bool {
        false
    }

    open spec fn from_spec(e: std::io::Error) -> AppError {
        arbitrary()
    }
}

/// The serializer's error type, declared so that values of it can be taken
/// and described; opaque to the verifier.
#[verifier::external_type_specification]
#[verifier::external_body]
pub struct ExSerdeJsonError(serde_json::Error);

/// Read a serialization failure's description.
///
/// Relies on serde_json::Error: to_string describes the failure.
#[verifier::external_body]
fn serde_json_error_description(e: &serde_json::Error) -> String {
    e.to_string()
}

impl From<serde_json::Error> for AppError {
    /// A serialization failure always surfaces as the serialization
    /// variant with the serialization-failure category.
    fn from(e: serde_json::Error) -> (r: AppError)
        ensures
            r matches AppError::Serialization(v) && v.code == ErrorCode::SerializationFailed,
            r.wf(),
    {
        serialization_failure_to_app_error(serde_json_error_description(&e))
    }
}

impl vstd::std_specs::convert::FromSpecImpl<serde_json::Error> for AppError {
    open spec fn obeys_from_spec() -> bool {
        false
    }

    open spec fn from_spec(e: serde_json::Error) -> AppError {
        arbitrary()
    }
}

/// Generic helpers turning an optional or fallible value into an
/// [`AppError`]-bearing result, given a caller-supplied context message.
pub trait ToAppResult<T>: Sized {
    /// The value carried, when the shape is a success.
    spec fn ok_value(self) -> Option<T>;

    /// What the failure result owes to the input and the context message.
    spec fn failure_matches(self, context: Seq<char>, e: AppError) -> bool;

    /// A success wraps the value unchanged; a failure wraps the
    /// [`AppError`] this shape owes.
    fn to_app_error(self, context: &str) -> (r: Result<T, AppError>)
        ensures
            match self.ok_value() {
                Some(v) => r == Ok::<T, AppError>(v),
                None => r matches Err(e) && e.wf() && self.failure_matches(context@, e),
            },
    ;
}

impl<T> ToAppResult<T> for Option<T> {
    open spec fn ok_value(self) -> Option<T> {
        self
    }

    /// An absent value surfaces as the resource-not-found category, the
    /// message built from the context.
    open spec fn failure_matches(self, context: Seq<char>, e: AppError) -> bool {
        e matches AppError::NotFound(v) && v.code == ErrorCode::ResourceNotFound && v.message@
            == context + " not found"@ && v.details is None && v.field is None && v.cause is None
            && v.context is None
    }

    fn to_app_error(self, context: &str) -> (r: Result<T, AppError>) {
        match self {
            Some(v) => Ok(v),
            None => {
                proof {
                    reveal_strlit(" not found");
                }
                let mut m: String = context.to_owned();
                m.append(" not found");
                Err(AppError::NotFound(ErrorValue::new(ErrorCode::ResourceNotFound, m.as_str())))
            },
        }
    }
}

impl<T> ToAppResult<T> for Result<T, String> {
    open spec fn ok_value(self) -> Option<T> {
        match self {
            Ok(v) => Some(v),
            Err(_) => None,
        }
    }

    /// A failure surfaces as the storage variant with the generic
    /// query-failure category, the message incorporating the context and
    /// the underlying failure's description.
    open spec fn failure_matches(self, context: Seq<char>, e: AppError) -> bool {
        self matches Err(d) && (e matches AppError::Database(v) && v.code
            == ErrorCode::DbQueryFailed && v.message@ == context + ": "@ + d@ && v.details is None
            && v.field is None && v.cause is None && v.context is None)
    }

    fn to_app_error(self, context: &str) -> (r: Result<T, AppError>) {
        match self {
            Ok(v) => Ok(v),
            Err(d) => {
                proof {
                    reveal_strlit(": ");
                }
                let mut m: String = context.to_owned();
                m.append(": ");
                m.append(d.as_str());
                Err(AppError::Database(ErrorValue::new(ErrorCode::DbQueryFailed, m.as_str())))
            },
        }
    }
}

} // verus!
