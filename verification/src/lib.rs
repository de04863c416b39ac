//! League scoring: the verified core of a self-hosted league tracker.
//!
//! Players report match results, opponents confirm them, admins run
//! tournaments.  This crate holds the rules: score validation, the request
//! flows that decide what each endpoint reads, writes and answers, bearer
//! token handling, and the standings computation.  The HTTP server and the
//! SQLite database live outside it and drive the flows.

pub mod auth;
pub mod error;
pub mod handlers;
pub mod models;
pub mod standings;
pub mod store;
pub mod text;
pub mod token;
