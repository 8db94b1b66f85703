//! What clients ask of the server, with every event held against the state of its room.
pub mod ephemeral;
pub mod room;
