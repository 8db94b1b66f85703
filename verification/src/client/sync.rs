//! How many members the rooms of a user have.
use crate::client::auth::AccessToken;
use crate::client::room_sync::{RoomSummary, SummaryView};
use crate::dict::{distinct_keys, map_of, Dict};
use crate::error::ErrorKind;
use crate::events::room::Membership;
use crate::server::{caller_of, ServerState};
use crate::storage::{
    count_members, current_state, db_failed, memberships_in, Storage, StorageView,
};
use crate::util::mxid::mxid_of;
use vstd::prelude::*;

verus! {

/// The rooms of a user, by how they stand to them. Only of those that they have joined something is
/// said.
pub struct SyncResponse {
    pub next_batch: String,
    pub join: Dict<String, RoomSummary>,
}

/// How many members a room has.
pub open spec fn summary_of(s: StorageView, room: Seq<char>) -> SummaryView {
    let current = current_state(s.rooms[room].events);
    SummaryView {
        heroes: None,
        joined_member_count: count_members(current, Membership::Join),
        invited_member_count: count_members(current, Membership::Invite),
    }
}

/// The summaries of the rooms that a user has joined.
pub open spec fn summaries(s: StorageView, user: Seq<char>) -> Map<Seq<char>, SummaryView> {
    Map::new(
        |room: Seq<char>|
            memberships_in(s.rooms, user).contains_key(room) && memberships_in(s.rooms, user)[room]
                == Membership::Join,
        |room: Seq<char>| summary_of(s, room),
    )
}

/// The summaries of the rooms that the user of a token has joined.
pub fn sync<S: Storage>(state: &ServerState<S>, token: AccessToken) -> (r: Result<
    SyncResponse,
    ErrorKind,
>)
    requires
        state.wf(),
    ensures
        match r {
            Ok(response) => caller_of(state.db@, token@) is Ok && response.next_batch@ == ""@
                && response.join@ == summaries(
                state.db@,
                mxid_of(caller_of(state.db@, token@)->Ok_0, state.config.domain@),
            ),
            Err(e) => if db_failed(r) {
                !state.db.reliable()
            } else {
                caller_of(state.db@, token@) == Err::<Seq<char>, _>(e@)
            },
        },
{
    let user_id = match state.identify(token.0) {
        Ok((_, user_id)) => user_id,
        Err(e) => return Err(e),
    };
    let memberships = match state.db.get_memberships_by_user(&user_id) {
        Ok(memberships) => memberships,
        Err(e) => return Err(e),
    };
    let ghost all = memberships_in(state.db@.rooms, user_id@);
    let ghost wanted = summaries(state.db@, user_id@);
    let ghost listing = memberships.listing();
    let mut join: Dict<String, RoomSummary> = Dict::new();
    let n: usize = memberships.len();
    let mut i: usize = 0;
    while i < n
        invariant
            i <= n == listing.len(),
            listing == memberships.listing(),
            distinct_keys(listing),
            memberships@ == all,
            all == memberships_in(state.db@.rooms, user_id@),
            wanted == summaries(state.db@, user_id@),
            forall|room: Seq<char>| #[trigger]
                join@.contains_key(room) <==> wanted.contains_key(room) && exists|j: int|
                    0 <= j < i && (#[trigger] listing[j]).0 == room,
            forall|room: Seq<char>| #[trigger]
                join@.contains_key(room) ==> join@[room] == wanted[room],
        decreases n - i,
    {
        let ghost before = join@;
        let ghost here = listing[i as int].0;
        let e = memberships.entry(i);
        match e.1 {
            Membership::Join => {
                let (joined, invited) = match state.db.get_room_member_counts(e.0.as_str()) {
                    Ok(counts) => counts,
                    Err(e) => return Err(e),
                };
                join.insert(
                    e.0.clone(),
                    RoomSummary {
                        heroes: None,
                        joined_member_count: joined,
                        invited_member_count: invited,
                    },
                );
            },
            _ => {},
        }
        proof {
            assert forall|room: Seq<char>| #[trigger]
                join@.contains_key(room) <==> wanted.contains_key(room) && exists|j: int|
                    0 <= j < i + 1 && (#[trigger] listing[j]).0 == room by {
                if room == here {
                    assert(listing[i as int].0 == room);
                } else {
                    assert(join@.contains_key(room) == before.contains_key(room));
                }
            }
        }
        i += 1;
    }
    proof {
        assert forall|room: Seq<char>| wanted.contains_key(room) implies join@.contains_key(room) by {
            assert(map_of(listing).contains_key(room));
            let j = choose|j: int| 0 <= j < listing.len() && (#[trigger] listing[j]).0 == room;
            assert(listing[j].0 == room);
        }
        assert(join@ =~= wanted);
    }
    Ok(SyncResponse { next_batch: "".to_owned(), join })
}

} // verus!
