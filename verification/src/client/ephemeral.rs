//! Who is typing.
use crate::client::auth::AccessToken;
use crate::error::{ErrorKind, ErrorView};
use crate::server::{caller_of, ServerState};
use crate::state::growth::{lemma_same_events, same_events};
use crate::storage::{deadline, db_failed, with_room, with_typing, Storage, StorageView};
use crate::text::same;
use crate::util::mxid::{domain_of, localpart_of, MatrixId};
use crate::util::storage::lemma_still_valid;
use vstd::prelude::*;

verus! {

pub struct TypingRequest {
    pub typing: bool,
    pub timeout: u32,
}

/// Whether a token belongs to the user with an identifier on a server.
pub open spec fn speaks_for(s: StorageView, domain: Seq<char>, token: u128, id: Seq<char>) -> bool {
    caller_of(s, token) == Ok::<_, ErrorView>(localpart_of(id)) && domain_of(id) == domain
}

/// Why a client cannot say that a user is typing in a room, if it cannot.
pub open spec fn typing_verdict(
    s: StorageView,
    domain: Seq<char>,
    token: u128,
    room_id: Seq<char>,
    user_id: Seq<char>,
) -> Result<(), ErrorView> {
    if !speaks_for(s, domain, token, user_id) {
        Err(ErrorView::Forbidden)
    } else if !s.rooms.contains_key(room_id) {
        Err(ErrorView::RoomNotFound)
    } else {
        Ok(())
    }
}

/// Notes that a user is typing in a room, for some milliseconds, or has stopped.
pub fn typing<S: Storage>(
    state: &mut ServerState<S>,
    token: AccessToken,
    room_id: &str,
    user_id: &MatrixId,
    req: TypingRequest,
    now: u64,
) -> (r: Result<(), ErrorKind>)
    requires
        old(state).wf(),
    ensures
        final(state).config == old(state).config,
        final(state).db.reliable() == old(state).db.reliable(),
        !db_failed(r) ==> final(state).wf(),
        match r {
            Ok(_) => typing_verdict(
                old(state).db@,
                old(state).config.domain@,
                token@,
                room_id@,
                user_id@,
            ) is Ok && final(state).db@ == with_room(
                old(state).db@,
                room_id@,
                with_typing(
                    old(state).db@.rooms[room_id@],
                    user_id@,
                    req.typing,
                    deadline(now, req.timeout),
                ),
            ),
            Err(e) => if db_failed(r) {
                !old(state).db.reliable()
            } else {
                typing_verdict(
                    old(state).db@,
                    old(state).config.domain@,
                    token@,
                    room_id@,
                    user_id@,
                ) == Err::<(), _>(e@) && final(state).db@ == old(state).db@
            },
        },
{
    let username = match state.db.try_auth(token.0) {
        Ok(Some(username)) => username,
        Ok(None) => return Err(ErrorKind::Forbidden),
        Err(e) => return Err(e),
    };
    if !same(username.as_str(), user_id.localpart()) || !same(
        state.config.domain.as_str(),
        user_id.domain(),
    ) {
        return Err(ErrorKind::Forbidden);
    }
    let ghost before = state.db@.rooms;
    let r = state.db.set_typing(room_id, user_id, req.typing, req.timeout, now);
    proof {
        if !db_failed(r) {
            assert(same_events(before, state.db@.rooms));
            lemma_same_events(before, state.db@.rooms);
            lemma_still_valid(&state.state_resolver, before, state.db@.rooms);
        }
    }
    r
}

} // verus!
