//! Decisions of the HTTP endpoints.
pub mod auth;
pub mod compare;
pub mod quiz;
