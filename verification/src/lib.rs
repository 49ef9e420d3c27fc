//! Logic of the TC Exchange backend: the catalogue assistant (language
//! detection, destination matching, greetings), the prompt builders of the
//! comparison engine and of the quiz, and the decisions taken on the answers
//! of the AI services. Network, database and HTTP plumbing live outside.
pub mod chat;
pub mod compare;
pub mod db;
pub mod models;
pub mod routes;
pub mod seed;
pub mod text;
