//! Who is typing.
use crate::client::auth::AccessToken;
use crate::client::ephemeral::typing_verdict;
use crate::error::ErrorKind;
use crate::json::{Json, JsonValue};
use crate::server::ServerState;
use crate::storage::{deadline, db_failed, with_room, with_typing, Storage};
use crate::util::mxid::MatrixId;
use vstd::prelude::*;

verus! {

pub struct TypingRequest {
    pub typing: bool,
    pub timeout: u32,
}

/// Notes that a user is typing in a room, for some milliseconds, or has stopped, and answers with
/// an empty object.
pub fn typing<S: Storage>(
    state: &mut ServerState<S>,
    token: AccessToken,
    room_id: &str,
    user_id: &MatrixId,
    req: TypingRequest,
    now: u64,
) -> (r: Result<JsonValue, ErrorKind>)
    requires
        old(state).wf(),
    ensures
        final(state).config == old(state).config,
        final(state).db.reliable() == old(state).db.reliable(),
        !db_failed(r) ==> final(state).wf(),
        match r {
            Ok(answer) => answer@ == Json::Object(Map::empty()) && typing_verdict(
                old(state).db@,
                old(state).config.domain@,
                token@,
                room_id@,
                user_id@,
            ) is Ok && final(state).db@ == with_room(
                old(state).db@,
                room_id@,
                with_typing(
                    old(state).db@.rooms[room_id@],
                    user_id@,
                    req.typing,
                    deadline(now, req.timeout),
                ),
            ),
            Err(e) => if db_failed(r) {
                !old(state).db.reliable()
            } else {
                typing_verdict(
                    old(state).db@,
                    old(state).config.domain@,
                    token@,
                    room_id@,
                    user_id@,
                ) == Err::<(), _>(e@) && final(state).db@ == old(state).db@
            },
        },
{
    let req = crate::client::ephemeral::TypingRequest { typing: req.typing, timeout: req.timeout };
    match crate::client::ephemeral::typing(state, token, room_id, user_id, req, now) {
        Ok(()) => Ok(JsonValue::object()),
        Err(e) => Err(e),
    }
}

} // verus!
