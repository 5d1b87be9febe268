//! Core of a small desktop-application backend: a structured error taxonomy
//! that every fallible operation funnels through, and the single-entity user
//! store whose operations surface those errors while preserving relational
//! invariants (unique emails, monotone ids, partial updates).

pub mod convert;
pub mod database;
pub mod error;
pub mod errors;
pub mod numfmt;
pub mod response;
pub mod text;
