//! Whether events are allowed.
pub mod auth;
pub mod laws;
