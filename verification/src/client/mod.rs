//! What clients ask of the server.
use crate::events::room::single;
use crate::json::{text_list, JsonValue};
use crate::text::texts;
use vstd::prelude::*;

pub mod auth;
pub mod ephemeral;
pub mod error;
pub mod laws;
pub mod room;
pub mod room_events;
pub mod room_laws;
pub mod room_sync;
pub mod sync;
pub mod sync_laws;
pub mod user;

verus! {

/// The versions of the client-server API that the server knows.
pub fn versions() -> (v: JsonValue)
    ensures
        v@ == single("versions"@, text_list(seq!["r0.6.0"@])),
{
    let mut list: Vec<String> = Vec::new();
    list.push("r0.6.0".to_owned());
    assert(texts(list@) =~= seq!["r0.6.0"@]);
    let mut v = JsonValue::object();
    v.insert("versions", JsonValue::text_array(&list));
    assert(v@->Object_0 =~= single("versions"@, text_list(seq!["r0.6.0"@]))->Object_0);
    v
}

} // verus!
