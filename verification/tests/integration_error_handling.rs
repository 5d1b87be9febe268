// Integration tests for error handling: error creation, attachment,
// conversion, and the wire representation.

use rustwebui_app::convert::{
    storage_failure_to_app_error, StorageFailure, StorageFailureKind, ToAppResult,
};
use rustwebui_app::error::{AppError, ErrorCode, ErrorValue};
use rustwebui_app::errors;
use rustwebui_app::response::{json_string_of, Response, ResponseValue};

#[test]
fn test_error_value_creation() {
    let error = ErrorValue::new(ErrorCode::DbNotFound, "User not found");

    assert_eq!(error.code, ErrorCode::DbNotFound);
    assert_eq!(error.message, "User not found");
    assert!(error.details.is_none());
    assert!(error.field.is_none());
}

#[test]
fn test_error_value_with_details() {
    let error = ErrorValue::new(ErrorCode::DbQueryFailed, "Query failed")
        .with_details("SQL syntax error at line 1");

    assert_eq!(error.code, ErrorCode::DbQueryFailed);
    assert_eq!(error.message, "Query failed");
    assert_eq!(error.details, Some("SQL syntax error at line 1".to_string()));
}

#[test]
fn test_error_value_with_field() {
    let error = ErrorValue::new(ErrorCode::ValidationFailed, "Invalid input").with_field("email");

    assert_eq!(error.code, ErrorCode::ValidationFailed);
    assert_eq!(error.field, Some("email".to_string()));
}

#[test]
fn test_error_value_with_context() {
    let error = ErrorValue::new(ErrorCode::ResourceNotFound, "Not found")
        .with_context("resource", "user")
        .with_context("id", "123");

    assert_eq!(error.code, ErrorCode::ResourceNotFound);

    let context = error.context.expect("Context should exist");
    assert_eq!(context.get("resource"), Some(&"user".to_string()));
    assert_eq!(context.get("id"), Some(&"123".to_string()));
}

#[test]
fn test_error_value_chaining() {
    let error = ErrorValue::new(ErrorCode::DbConstraintViolation, "Constraint failed")
        .with_details("Unique constraint on email")
        .with_field("email")
        .with_cause("Duplicate entry")
        .with_context("table", "users");

    assert_eq!(error.code, ErrorCode::DbConstraintViolation);
    assert!(error.details.is_some());
    assert!(error.field.is_some());
    assert!(error.cause.is_some());
    assert!(error.context.is_some());
}

#[test]
fn test_error_value_to_response() {
    let error = ErrorValue::new(ErrorCode::ValidationFailed, "Invalid email").with_field("email");

    let response = error.to_response();

    assert_eq!(response.get_str("code"), Some(&"VALIDATION_FAILED".to_string()));
    assert_eq!(response.get_str("message"), Some(&"Invalid email".to_string()));
    assert_eq!(response.get_str("field"), Some(&"email".to_string()));
}

#[test]
fn test_error_value_json_serialization() {
    let error = ErrorValue::new(ErrorCode::DbNotFound, "User not found")
        .with_context("user_id", "42");

    let json = error.to_response().render();

    assert!(json.contains("DB_NOT_FOUND"));
    assert!(json.contains("User not found"));
    assert!(json.contains("user_id"));
}

#[test]
fn test_error_code_serialization() {
    let code = ErrorCode::DbConnectionFailed;
    let json = json_string_of(code.as_str());

    assert_eq!(json, "\"DB_CONNECTION_FAILED\"");
}

#[test]
fn test_app_error_database() {
    let error_value = ErrorValue::new(ErrorCode::DbQueryFailed, "Query failed");
    let app_error = AppError::Database(error_value.clone());

    assert!(matches!(app_error, AppError::Database(_)));
    assert_eq!(app_error.to_value().code, ErrorCode::DbQueryFailed);
}

#[test]
fn test_app_error_validation() {
    let error_value = ErrorValue::new(ErrorCode::ValidationFailed, "Invalid input");
    let app_error = AppError::Validation(error_value);

    assert!(matches!(app_error, AppError::Validation(_)));
    assert_eq!(app_error.to_value().code, ErrorCode::ValidationFailed);
}

#[test]
fn test_app_error_not_found() {
    let error_value = ErrorValue::new(ErrorCode::ResourceNotFound, "Not found");
    let app_error = AppError::NotFound(error_value);

    assert!(matches!(app_error, AppError::NotFound(_)));
    assert_eq!(app_error.to_value().code, ErrorCode::ResourceNotFound);
}

#[test]
fn test_app_error_to_json() {
    let error_value = ErrorValue::new(ErrorCode::InternalError, "System error");
    let app_error = AppError::LockPoisoned(error_value);

    let json = app_error.to_json();

    assert_eq!(json.get_str("code"), Some(&"INTERNAL_ERROR".to_string()));
    assert_eq!(json.get_str("message"), Some(&"System error".to_string()));
}

#[test]
fn test_db_not_found_helper() {
    let err = errors::db_not_found("User", "123");

    assert!(matches!(err, AppError::NotFound(_)));
    let value = err.to_value();
    assert_eq!(value.code, ErrorCode::DbNotFound);
    assert!(value.message.contains("User not found: 123"));
}

#[test]
fn test_validation_failed_helper() {
    let err = errors::validation_failed("email", "Must be valid email format");

    assert!(matches!(err, AppError::Validation(_)));
    let value = err.to_value();
    assert_eq!(value.code, ErrorCode::ValidationFailed);
    assert_eq!(value.field, Some("email".to_string()));
    assert_eq!(value.message, "Must be valid email format");
}

#[test]
fn test_not_found_helper() {
    let err = errors::not_found("Product", "SKU-123");

    assert!(matches!(err, AppError::NotFound(_)));
    let value = err.to_value();
    assert_eq!(value.code, ErrorCode::ResourceNotFound);
    assert!(value.message.contains("Product not found: SKU-123"));
}

#[test]
fn test_internal_error_helper() {
    let err = errors::internal("Unexpected state");

    assert!(matches!(err, AppError::LockPoisoned(_)));
    let value = err.to_value();
    assert_eq!(value.code, ErrorCode::InternalError);
    assert_eq!(value.message, "Unexpected state");
}

#[test]
fn test_from_rusqlite_error() {
    let sql_error = rusqlite::Error::SqliteFailure(
        rusqlite::ffi::Error::new(rusqlite::ffi::SQLITE_ERROR),
        Some("SQL error message".to_string()),
    );

    let app_error: AppError = sql_error.into();

    assert!(matches!(app_error, AppError::Database(_)));
    assert_eq!(app_error.to_value().code, ErrorCode::DbQueryFailed);
}

#[test]
fn test_from_io_error() {
    let io_error = std::io::Error::new(std::io::ErrorKind::NotFound, "File not found");

    let app_error: AppError = io_error.into();

    assert!(matches!(app_error, AppError::Logging(_)));
    assert_eq!(app_error.to_value().code, ErrorCode::InternalError);
}

#[test]
fn test_from_serde_json_error() {
    let json_error = serde_json::from_str::<serde_json::Value>("invalid json").unwrap_err();

    let app_error: AppError = json_error.into();

    assert!(matches!(app_error, AppError::Serialization(_)));
    assert_eq!(app_error.to_value().code, ErrorCode::SerializationFailed);
}

#[test]
fn test_option_to_app_result_some() {
    let value: Option<i32> = Some(42);
    let result = value.to_app_error("Expected value");

    assert!(result.is_ok());
    assert_eq!(result.unwrap(), 42);
}

#[test]
fn test_option_to_app_result_none() {
    let value: Option<i32> = None;
    let result = value.to_app_error("Expected value");

    assert!(result.is_err());
    assert!(matches!(result.unwrap_err(), AppError::NotFound(_)));
}

#[test]
fn test_result_to_app_result_ok() {
    let value: Result<i32, String> = Ok(42);
    let result = value.to_app_error("Database operation");

    assert!(result.is_ok());
    assert_eq!(result.unwrap(), 42);
}

#[test]
fn test_result_to_app_result_err() {
    let value: Result<i32, String> = Err("IO failed".to_string());
    let result = value.to_app_error("Database operation");

    assert!(result.is_err());
    let err = result.unwrap_err();
    assert!(matches!(err, AppError::Database(_)));
    assert!(err.to_value().message.contains("Database operation"));
    assert!(err.to_value().message.contains("IO failed"));
}

#[test]
fn test_constraint_failure_through_storage_adapter() {
    let failure = StorageFailure {
        kind: StorageFailureKind::Constraint,
        description: "UNIQUE constraint failed: users.email".to_string(),
    };

    let app_error = storage_failure_to_app_error(failure);

    assert!(matches!(app_error, AppError::Database(_)));
    assert_eq!(app_error.to_value().code, ErrorCode::DbConstraintViolation);
    assert_ne!(app_error.to_value().code, ErrorCode::DbQueryFailed);
}

#[test]
fn test_constraint_failure_through_rusqlite_conversion() {
    let sql_error = rusqlite::Error::SqliteFailure(
        rusqlite::ffi::Error::new(rusqlite::ffi::SQLITE_CONSTRAINT),
        Some("UNIQUE constraint failed: users.email".to_string()),
    );

    let app_error: AppError = sql_error.into();

    assert!(matches!(app_error, AppError::Database(_)));
    assert_eq!(app_error.to_value().code, ErrorCode::DbConstraintViolation);
}

#[test]
fn test_connection_failure_through_storage_adapter() {
    let failure = StorageFailure {
        kind: StorageFailureKind::Connection,
        description: "unable to open database file".to_string(),
    };

    let app_error = storage_failure_to_app_error(failure);

    assert_eq!(app_error.to_value().code, ErrorCode::DbConnectionFailed);
}

#[test]
fn test_error_code_tokens() {
    assert_eq!(ErrorCode::DbNotFound.as_str(), "DB_NOT_FOUND");
    assert_eq!(ErrorCode::DbQueryFailed.as_str(), "DB_QUERY_FAILED");
    assert_eq!(ErrorCode::DbConnectionFailed.as_str(), "DB_CONNECTION_FAILED");
    assert_eq!(ErrorCode::DbConstraintViolation.as_str(), "DB_CONSTRAINT_VIOLATION");
    assert_eq!(ErrorCode::ValidationFailed.as_str(), "VALIDATION_FAILED");
    assert_eq!(ErrorCode::ResourceNotFound.as_str(), "RESOURCE_NOT_FOUND");
    assert_eq!(ErrorCode::SerializationFailed.as_str(), "SERIALIZATION_FAILED");
    assert_eq!(ErrorCode::InternalError.as_str(), "INTERNAL_ERROR");
}

#[test]
fn test_context_last_write_wins() {
    let error = ErrorValue::new(ErrorCode::InternalError, "twice")
        .with_context("key", "old")
        .with_context("key", "new");

    let context = error.context.expect("Context should exist");
    assert_eq!(context.len(), 1);
    assert_eq!(context.get("key"), Some(&"new".to_string()));
    assert_eq!(context.get("other"), None);
}

#[test]
fn test_scenario_validation_response_shape() {
    let error = ErrorValue::new(ErrorCode::ValidationFailed, "Invalid email").with_field("email");

    let response = error.to_response();

    assert_eq!(response.get_str("code"), Some(&"VALIDATION_FAILED".to_string()));
    assert_eq!(response.get_str("message"), Some(&"Invalid email".to_string()));
    assert_eq!(response.get_str("field"), Some(&"email".to_string()));
    assert!(!response.has_key("details"));
    assert!(!response.has_key("cause"));
    assert!(!response.has_key("context"));
    assert_eq!(response.len(), 3);
    assert_eq!(
        response.render(),
        "{\"code\":\"VALIDATION_FAILED\",\"message\":\"Invalid email\",\"field\":\"email\"}"
    );
}

#[test]
fn test_response_round_trip() {
    let error = ErrorValue::new(ErrorCode::DbConstraintViolation, "Constraint failed")
        .with_details("Unique constraint on email")
        .with_cause("Duplicate entry")
        .with_context("table", "users");

    let decoded = ErrorValue::from_response(&error.to_response())
        .expect("an encoded value must decode");

    assert_eq!(decoded.code, error.code);
    assert_eq!(decoded.message, error.message);
    assert_eq!(decoded.details, error.details);
    assert_eq!(decoded.field, None);
    assert_eq!(decoded.cause, error.cause);
    let context = decoded.context.expect("context must survive the round trip");
    assert_eq!(context.get("table"), Some(&"users".to_string()));
    assert_eq!(context.len(), 1);
}

#[test]
fn test_render_escapes_special_characters() {
    assert_eq!(json_string_of("a\"b"), "\"a\\\"b\"");
    assert_eq!(json_string_of("back\\slash"), "\"back\\\\slash\"");
    assert_eq!(json_string_of("line\nbreak"), "\"line\\nbreak\"");
    assert_eq!(json_string_of("tab\there"), "\"tab\\there\"");
    assert_eq!(json_string_of("bell\u{7}"), "\"bell\\u0007\"");
}

#[test]
fn test_decode_built_response() {
    let fields = vec![
        ("code".to_string(), ResponseValue::Text("INTERNAL_ERROR".to_string())),
        ("message".to_string(), ResponseValue::Text("Something went wrong".to_string())),
        ("details".to_string(), ResponseValue::Text("Technical details".to_string())),
    ];
    let response = Response::from_fields(fields);

    let error = ErrorValue::from_response(&response).expect("Failed to decode");

    assert_eq!(error.code, ErrorCode::InternalError);
    assert_eq!(error.message, "Something went wrong");
    assert_eq!(error.details, Some("Technical details".to_string()));
    assert_eq!(error.field, None);
    assert_eq!(error.cause, None);
    assert!(error.context.is_none());
}

#[test]
fn test_decode_rejects_malformed_objects() {
    // an unknown key
    let unknown = Response::from_fields(vec![
        ("code".to_string(), ResponseValue::Text("INTERNAL_ERROR".to_string())),
        ("message".to_string(), ResponseValue::Text("m".to_string())),
        ("extra".to_string(), ResponseValue::Text("x".to_string())),
    ]);
    assert!(ErrorValue::from_response(&unknown).is_none());

    // a repeated key
    let repeated = Response::from_fields(vec![
        ("code".to_string(), ResponseValue::Text("INTERNAL_ERROR".to_string())),
        ("code".to_string(), ResponseValue::Text("DB_NOT_FOUND".to_string())),
        ("message".to_string(), ResponseValue::Text("m".to_string())),
    ]);
    assert!(ErrorValue::from_response(&repeated).is_none());

    // an unknown code token
    let bad_token = Response::from_fields(vec![
        ("code".to_string(), ResponseValue::Text("NO_SUCH_CODE".to_string())),
        ("message".to_string(), ResponseValue::Text("m".to_string())),
    ]);
    assert!(ErrorValue::from_response(&bad_token).is_none());

    // an empty message
    let empty_message = Response::from_fields(vec![
        ("code".to_string(), ResponseValue::Text("INTERNAL_ERROR".to_string())),
        ("message".to_string(), ResponseValue::Text("".to_string())),
    ]);
    assert!(ErrorValue::from_response(&empty_message).is_none());

    // a message missing altogether
    let missing_message = Response::from_fields(vec![(
        "code".to_string(),
        ResponseValue::Text("INTERNAL_ERROR".to_string()),
    )]);
    assert!(ErrorValue::from_response(&missing_message).is_none());
}
