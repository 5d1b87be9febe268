// Integration tests for the user store: CRUD operations, constraint
// handling, initialization and fixture seeding.

use rustwebui_app::database::Database;
use rustwebui_app::error::{AppError, ErrorCode};

/// A fresh, initialized store.
fn fresh_db() -> Database {
    let mut db = Database::new("test.db").expect("Failed to create test database");
    db.init().expect("Failed to initialize database schema");
    db
}

/// A fresh store seeded with the fixture rows.
fn db_with_sample_data() -> Database {
    let mut db = fresh_db();
    db.insert_sample_data().expect("Failed to insert sample data");
    db
}

#[test]
fn test_create_user() {
    let mut db = fresh_db();

    let result = db.insert_user("Test User", "test@example.com", "User", "Active");

    assert!(result.is_ok(), "Create user should succeed");
    let user_id = result.unwrap();
    assert!(user_id > 0, "User ID should be positive");
}

#[test]
fn test_get_all_users_empty() {
    let db = fresh_db();

    let result = db.get_all_users();

    assert!(result.is_ok(), "Get users should succeed");
    let users = result.unwrap();
    assert!(users.is_empty(), "Should return empty list for new database");
}

#[test]
fn test_get_all_users_with_data() {
    let db = db_with_sample_data();

    let result = db.get_all_users();

    assert!(result.is_ok(), "Get users should succeed");
    let users = result.unwrap();
    assert!(!users.is_empty(), "Should return users from sample data");
}

#[test]
fn test_update_user() {
    let mut db = fresh_db();

    let user_id = db
        .insert_user("Original", "original@example.com", "User", "Active")
        .expect("Failed to create user");

    let result = db.update_user(user_id, Some("Updated".to_string()), None, None, None);

    assert!(result.is_ok(), "Update user should succeed");
    let rows_updated = result.unwrap();
    assert_eq!(rows_updated, 1, "Should update exactly one row");

    let users = db.get_all_users().expect("Failed to get users");
    let updated_user = users.iter().find(|u| u.id == user_id).expect("User not found");
    assert_eq!(updated_user.name, "Updated", "Name should be updated");
}

#[test]
fn test_delete_user() {
    let mut db = fresh_db();

    let user_id = db
        .insert_user("To Delete", "delete@example.com", "User", "Active")
        .expect("Failed to create user");

    let result = db.delete_user(user_id);

    assert!(result.is_ok(), "Delete user should succeed");
    let rows_deleted = result.unwrap();
    assert_eq!(rows_deleted, 1, "Should delete exactly one row");

    let users = db.get_all_users().expect("Failed to get users");
    let deleted_user = users.iter().find(|u| u.id == user_id);
    assert!(deleted_user.is_none(), "User should be deleted");
}

#[test]
fn test_get_user_by_id() {
    let mut db = fresh_db();

    let user_id = db
        .insert_user("Lookup User", "lookup@example.com", "User", "Active")
        .expect("Failed to create user");

    let result = db.get_user_by_id(user_id);

    assert!(result.is_ok(), "Get user by ID should succeed");
    let user = result.unwrap();
    assert!(user.is_some(), "Should find the user");
    let user = user.unwrap();
    assert_eq!(user.name, "Lookup User", "Should return correct user");
}

#[test]
fn test_get_user_by_id_not_found() {
    let db = fresh_db();

    let result = db.get_user_by_id(99999);

    assert!(result.is_ok(), "Get user by ID should succeed (even if not found)");
    let user = result.unwrap();
    assert!(user.is_none(), "Should return None for non-existent user");
}

#[test]
fn test_database_stats() {
    let db = db_with_sample_data();

    let stats = db.get_stats();

    assert!(stats.total_users >= 1, "Should have at least one user from sample data");
    assert!(stats.created_at > 0, "Should have valid creation timestamp");
}

#[test]
fn test_unique_email_constraint() {
    let mut db = fresh_db();

    let result1 = db.insert_user("User 1", "unique@example.com", "User", "Active");
    assert!(result1.is_ok(), "First insert should succeed");

    let result2 = db.insert_user("User 2", "unique@example.com", "User", "Active");
    assert!(result2.is_err(), "Second insert with same email should fail");
}

#[test]
fn test_required_fields() {
    let mut db = fresh_db();

    let result = db.insert_user("", "empty@example.com", "User", "Active");
    assert!(result.is_err(), "Insert with empty name should fail");
}

#[test]
fn test_database_creation() {
    let db = Database::new("new.db");

    assert!(db.is_ok(), "Database should be created successfully");
}

#[test]
fn test_database_schema_initialization() {
    let mut db = Database::new("init.db").expect("Failed to create database");

    let result = db.init();

    assert!(result.is_ok(), "Schema initialization should succeed");
}

#[test]
fn test_sample_data_creation() {
    let mut db = Database::new("sample.db").expect("Failed to create database");

    db.init().expect("Failed to initialize schema");
    let result = db.insert_sample_data();

    assert!(result.is_ok(), "Sample data insertion should succeed");

    let users = db.get_all_users().expect("Failed to get users");
    assert!(!users.is_empty(), "Sample data should include users");
}

#[test]
fn test_insert_then_get_returns_inserted_fields() {
    let mut db = fresh_db();

    let id = db
        .insert_user("Round Trip", "round@example.com", "Admin", "Inactive")
        .expect("insert should succeed");
    let user = db.get_user_by_id(id).expect("lookup should succeed").expect("row should exist");

    assert_eq!(user.id, id);
    assert_eq!(user.name, "Round Trip");
    assert_eq!(user.email, "round@example.com");
    assert_eq!(user.role, "Admin");
    assert_eq!(user.status, "Inactive");
}

#[test]
fn test_duplicate_email_rejected_with_constraint_code() {
    let mut db = fresh_db();

    db.insert_user("User 1", "unique@example.com", "User", "Active")
        .expect("first insert should succeed");
    let result = db.insert_user("Other Name", "unique@example.com", "Admin", "Inactive");

    let err = result.expect_err("second insert with same email should fail");
    assert!(matches!(err, AppError::Database(_)));
    assert_eq!(err.to_value().code, ErrorCode::DbConstraintViolation);
}

#[test]
fn test_empty_name_rejected_with_validation_code() {
    let mut db = fresh_db();

    let err = db
        .insert_user("", "empty@example.com", "User", "Active")
        .expect_err("insert with empty name should fail");

    assert!(matches!(err, AppError::Validation(_)));
    let value = err.to_value();
    assert_eq!(value.code, ErrorCode::ValidationFailed);
    assert_eq!(value.field, Some("name".to_string()));
}

#[test]
fn test_absent_id_never_fails() {
    let mut db = fresh_db();
    db.insert_user("Present", "present@example.com", "User", "Active")
        .expect("insert should succeed");

    assert!(db.get_user_by_id(424242).expect("get should succeed").is_none());
    assert_eq!(
        db.update_user(424242, Some("X".to_string()), None, None, None)
            .expect("update of absent id should succeed"),
        0
    );
    assert_eq!(db.delete_user(424242).expect("delete of absent id should succeed"), 0);
}

#[test]
fn test_update_changes_only_supplied_fields() {
    let mut db = fresh_db();

    let id = db
        .insert_user("Before", "keep@example.com", "User", "Active")
        .expect("insert should succeed");
    let rows = db
        .update_user(id, Some("After".to_string()), None, None, None)
        .expect("update should succeed");
    assert_eq!(rows, 1);

    let user = db.get_user_by_id(id).expect("lookup should succeed").expect("row should exist");
    assert_eq!(user.name, "After");
    assert_eq!(user.email, "keep@example.com");
    assert_eq!(user.role, "User");
    assert_eq!(user.status, "Active");
}

#[test]
fn test_update_email_collision_rejected() {
    let mut db = fresh_db();

    let _a = db
        .insert_user("First", "first@example.com", "User", "Active")
        .expect("insert should succeed");
    let b = db
        .insert_user("Second", "second@example.com", "User", "Active")
        .expect("insert should succeed");

    let err = db
        .update_user(b, None, Some("first@example.com".to_string()), None, None)
        .expect_err("update onto another row's email should fail");
    assert_eq!(err.to_value().code, ErrorCode::DbConstraintViolation);

    let err_value = db
        .get_user_by_id(b)
        .expect("lookup should succeed")
        .expect("row should exist");
    assert_eq!(err_value.email, "second@example.com", "failed update must change nothing");

    let rows = db
        .update_user(b, None, Some("second@example.com".to_string()), None, None)
        .expect("keeping one's own email should succeed");
    assert_eq!(rows, 1);
}

#[test]
fn test_scenario_fresh_insert_then_get_all() {
    let mut db = fresh_db();

    let id = db
        .insert_user("Test User", "test@example.com", "User", "Active")
        .expect("insert should succeed");
    assert!(id > 0);

    let users = db.get_all_users().expect("get all should succeed");
    assert_eq!(users.len(), 1);
    assert_eq!(users[0].id, id);
    assert_eq!(users[0].name, "Test User");
    assert_eq!(users[0].email, "test@example.com");
    assert_eq!(users[0].role, "User");
    assert_eq!(users[0].status, "Active");
}

#[test]
fn test_scenario_insert_delete_then_absent() {
    let mut db = fresh_db();

    let id = db
        .insert_user("Short Lived", "short@example.com", "User", "Active")
        .expect("insert should succeed");

    assert_eq!(db.delete_user(id).expect("delete should succeed"), 1);
    assert!(db.get_user_by_id(id).expect("lookup should succeed").is_none());
}

#[test]
fn test_ids_ascend_and_are_never_reused() {
    let mut db = fresh_db();

    let a = db.insert_user("A", "a@example.com", "User", "Active").expect("insert");
    let b = db.insert_user("B", "b@example.com", "User", "Active").expect("insert");
    assert!(b > a);

    db.delete_user(b).expect("delete should succeed");
    let c = db.insert_user("C", "c@example.com", "User", "Active").expect("insert");
    assert!(c > b, "an id is never reused after a delete");

    let users = db.get_all_users().expect("get all should succeed");
    let ids: Vec<u64> = users.iter().map(|u| u.id).collect();
    let mut sorted = ids.clone();
    sorted.sort();
    assert_eq!(ids, sorted, "rows come back in ascending id order");
}

#[test]
fn test_sample_data_not_idempotent() {
    let mut db = db_with_sample_data();

    let err = db.insert_sample_data().expect_err("seeding twice should fail");
    assert_eq!(err.to_value().code, ErrorCode::DbConstraintViolation);
}
