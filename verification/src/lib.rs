//! A Matrix homeserver: events, rooms, state resolution, authorisation, storage and the requests of
//! clients.
pub mod client;
pub mod client_api;
pub mod dict;
pub mod error;
pub mod events;
pub mod json;
pub mod laws;
pub mod outside;
pub mod server;
pub mod server_api;
pub mod sign;
pub mod state;
pub mod storage;
pub mod text;
pub mod util;
pub mod validate;
