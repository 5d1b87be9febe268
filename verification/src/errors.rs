//! Convenience factories producing pre-filled [`AppError`] values for the
//! common cases.

use vstd::prelude::*;
use vstd::string::StringExecFns;

use crate::error::{AppError, ErrorCode, ErrorValue};

verus! {

/// The message reported when a lookup for `entity` under `key` found nothing.
pub open spec fn not_found_message(entity: Seq<char>, key: Seq<char>) -> Seq<char> {
    entity + " not found: "@ + key
}

/// Build the `"<entity> not found: <key>"` message.
fn build_not_found_message(entity: &str, key: &str) -> (r: String)
    ensures
        r@ == not_found_message(entity@, key@),
        r@.len() > 0,
{
    proof {
        reveal_strlit(" not found: ");
    }
    let mut m: String = entity.to_owned();
    m.append(" not found: ");
    m.append(key);
    m
}

/// A specific store lookup by key found nothing: the not-found-in-store
/// category inside the not-found variant.
pub fn db_not_found(entity: &str, key: &str) -> (r: AppError)
    ensures
        r matches AppError::NotFound(v) && v.code == ErrorCode::DbNotFound && v.message@
            == not_found_message(entity@, key@) && v.details is None && v.field is None
            && v.cause is None && v.context is None,
        r.wf(),
{
    let m = build_not_found_message(entity, key);
    AppError::NotFound(ErrorValue::new(ErrorCode::DbNotFound, m.as_str()))
}

/// Caller-supplied input failed a precondition: the validation variant,
/// always carrying the name of the field at fault.
pub fn validation_failed(field: &str, message: &str) -> (r: AppError)
    requires
        message@.len() > 0,
    ensures
        r matches AppError::Validation(v) && v.code == ErrorCode::ValidationFailed && v.message@
            == message@ && v.details is None && (v.field matches Some(f) && f@ == field@)
            && v.cause is None && v.context is None,
        r.wf(),
{
    AppError::Validation(ErrorValue::new(ErrorCode::ValidationFailed, message).with_field(field))
}

/// A higher-level resource lookup failed: the resource-not-found category
/// inside the not-found variant.
pub fn not_found(entity: &str, key: &str) -> (r: AppError)
    ensures
        r matches AppError::NotFound(v) && v.code == ErrorCode::ResourceNotFound && v.message@
            == not_found_message(entity@, key@) && v.details is None && v.field is None
            && v.cause is None && v.context is None,
        r.wf(),
{
    let m = build_not_found_message(entity, key);
    AppError::NotFound(ErrorValue::new(ErrorCode::ResourceNotFound, m.as_str()))
}

/// A condition the system cannot attribute to any other category.
pub fn internal(message: &str) -> (r: AppError)
    requires
        message@.len() > 0,
    ensures
        r matches AppError::LockPoisoned(v) && v.code == ErrorCode::InternalError && v.message@
            == message@ && v.details is None && v.field is None && v.cause is None
            && v.context is None,
        r.wf(),
{
    AppError::LockPoisoned(ErrorValue::new(ErrorCode::InternalError, message))
}

} // verus!
