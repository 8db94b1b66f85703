//! What users are told of their rooms.
use crate::client::auth::AccessToken;
use crate::client::room_sync::{
    batch_named, has_news, invite_state, left_rooms, news, news_query, resume, resumes, rooms_of,
    stands, sync_with, syncs, unread_from, SetPresence, SyncRequest, SyncResponse, SyncStep,
    Waiting,
};
use crate::client::sync::summaries;
use crate::dict::{has_key, lemma_map_of_entry, map_of};
use crate::error::{ErrorKind, ErrorView};
use crate::events::pdu::StoredView;
use crate::events::room::Membership;
use crate::events::{ContentView, EventView};
use crate::json::Json;
use crate::server::ServerState;
use crate::storage::{
    count_members, current_state, db_failed, is_member_event, latest_state, matching, membership_of,
    memberships_in, Storage, StorageView,
};
use crate::util::mxid::mxid_of;
use vstd::prelude::*;

verus! {

/// The answer that a step gives, or that it keeps ready.
pub open spec fn answer_of(step: SyncStep) -> SyncResponse {
    match step {
        SyncStep::Done(response) => response,
        SyncStep::Wait(waiting) => waiting.response,
    }
}

/// Whether an event was the last to say of a user how they stand to a room, and says so.
pub open spec fn last_says(
    events: Seq<StoredView>,
    user: Seq<char>,
    membership: Membership,
    i: int,
) -> bool {
    &&& 0 <= i < events.len()
    &&& events[i].pdu.state_key == Some(user)
    &&& events[i].pdu.content matches ContentView::Member(m) && m.membership == membership
    &&& forall|j: int|
        i < j < events.len() ==> !((#[trigger] events[j]).pdu.state_key == Some(user)
            && events[j].pdu.content.label() == "m.room.member"@)
}

/// Whether a stored event and what is shown of it say the same.
pub open spec fn shows_event(shown: EventView, stored: StoredView) -> bool {
    &&& shown.content == stored.pdu.content
    &&& shown.sender == stored.pdu.sender
    &&& shown.state_key == stored.pdu.state_key
    &&& shown.room_id == Some(stored.pdu.room_id)
    &&& shown.origin_server_ts == Some(stored.pdu.origin_server_ts)
    &&& shown.unsigned == stored.pdu.unsigned
    &&& shown.redacts == stored.pdu.redacts
}

proof fn lemma_membership(events: Seq<StoredView>, user: Seq<char>, membership: Membership, i: int)
    requires
        last_says(events, user, membership, i),
    ensures
        membership_of(events, user) == Some(membership),
    decreases events.len(),
{
    if i < events.len() - 1 {
        let last = events.len() - 1;
        assert(!(events[last].pdu.state_key == Some(user) && events[last].pdu.content.label()
            == "m.room.member"@));
        let rest = events.drop_last();
        assert(rest[i] == events[i]);
        assert forall|j: int| i < j < rest.len() implies !((
        #[trigger] rest[j]).pdu.state_key == Some(user) && rest[j].pdu.content.label()
            == "m.room.member"@) by {
            assert(rest[j] == events[j]);
        }
        lemma_membership(rest, user, membership, i);
    }
}

/// A user stands to a room in the way that the last event about them says.
pub proof fn law_stands(
    s: StorageView,
    user: Seq<char>,
    room: Seq<char>,
    membership: Membership,
    i: int,
)
    requires
        s.rooms.contains_key(room),
        last_says(s.rooms[room].events, user, membership, i),
    ensures
        stands(s, user, room, membership),
        forall|other: Membership| other != membership ==> !#[trigger] stands(s, user, room, other),
{
    lemma_membership(s.rooms[room].events, user, membership, i);
}

/// A user of whom no event of a room says anything stands to it in no way.
pub proof fn law_stranger(
    s: StorageView,
    user: Seq<char>,
    room: Seq<char>,
    membership: Membership,
)
    requires
        s.rooms.contains_key(room) ==> forall|j: int|
            0 <= j < s.rooms[room].events.len() ==> !((
            #[trigger] s.rooms[room].events[j]).pdu.state_key == Some(user)
                && s.rooms[room].events[j].pdu.content.label() == "m.room.member"@),
    ensures
        !stands(s, user, room, membership),
{
    if s.rooms.contains_key(room) {
        lemma_no_member(s.rooms[room].events, user);
    }
}

proof fn lemma_no_member(events: Seq<StoredView>, user: Seq<char>)
    requires
        forall|j: int|
            0 <= j < events.len() ==> !((#[trigger] events[j]).pdu.state_key == Some(user)
                && events[j].pdu.content.label() == "m.room.member"@),
    ensures
        latest_state(events, "m.room.member"@, user) is None,
    decreases events.len(),
{
    if events.len() > 0 {
        let last = events.len() - 1;
        assert(!(events[last].pdu.state_key == Some(user) && events[last].pdu.content.label()
            == "m.room.member"@));
        let rest = events.drop_last();
        assert forall|j: int| 0 <= j < rest.len() implies !((
        #[trigger] rest[j]).pdu.state_key == Some(user) && rest[j].pdu.content.label()
            == "m.room.member"@) by {
            assert(rest[j] == events[j]);
        }
        lemma_no_member(rest, user);
    }
}

/// Those who are invited, and have not been told so before, are shown the state of the room: each event of
/// the current state with its content, its sender and its own state key. Among them is their invitation.
pub proof fn law_invitation_shown<S: Storage>(
    step: SyncStep,
    before: StorageView,
    after: StorageView,
    user: Seq<char>,
    req: SyncRequest,
    next_batch: Seq<char>,
    now: u64,
    room: Seq<char>,
    i: int,
)
    requires
        syncs::<S>(step, before, after, user, req, next_batch, now),
        before.rooms.contains_key(room),
        last_says(before.rooms[room].events, user, Membership::Invite, i),
        !batch_named(before, crate::text::text_opt(req.since)).invites.contains(room),
    ensures
        ({
            let state = current_state(before.rooms[room].events);
            let shown = rooms_of(answer_of(step)).1[room];
            &&& rooms_of(answer_of(step)).1.contains_key(room)
            &&& shown.len() == state.len()
            &&& forall|k: int|
                0 <= k < shown.len() ==> Some((#[trigger] shown[k]).state_key)
                    == state[k].pdu.state_key && shown[k].content == state[k].pdu.content
                    && shown[k].sender == state[k].pdu.sender
            &&& exists|k: int|
                0 <= k < shown.len() && (#[trigger] shown[k]).state_key == user && (shown[k].content
                    matches ContentView::Member(m) && m.membership == Membership::Invite)
        }),
{
    let events = before.rooms[room].events;
    law_stands(before, user, room, Membership::Invite, i);
    let shown = rooms_of(answer_of(step)).1[room];
    assert(rooms_of(answer_of(step)).1.contains_key(room));
    assert(shown == invite_state(before, room));
    crate::storage::lemma_current_is_state(events);
    let state = current_state(events);
    assert forall|k: int| 0 <= k < shown.len() implies Some((#[trigger] shown[k]).state_key)
        == state[k].pdu.state_key && shown[k].content == state[k].pdu.content && shown[k].sender
        == state[k].pdu.sender by {
        assert(state[k].pdu.state_key is Some);
    }
    crate::events::law_kind_names(crate::events::ContentKind::Member);
    lemma_still_current(events, i);
    let k = choose|k: int| 0 <= k < state.len() && #[trigger] state[k] == events[i];
    assert(state[k] == events[i]);
    assert(shown[k].state_key == user);
}

/// A state event that none has replaced is in the current state.
proof fn lemma_still_current(events: Seq<StoredView>, i: int)
    requires
        0 <= i < events.len(),
        events[i].pdu.state_key is Some,
        forall|j: int|
            i < j < events.len() ==> !((#[trigger] events[j]).pdu.state_key
                == events[i].pdu.state_key && events[j].pdu.content.label()
                == events[i].pdu.content.label()),
    ensures
        exists|k: int|
            0 <= k < current_state(events).len() && #[trigger] current_state(events)[k]
                == events[i],
    decreases events.len(),
{
    let state = current_state(events);
    let last = events.len() - 1;
    let rest = events.drop_last();
    if i == last {
        assert(state[state.len() - 1] == events[i]);
    } else {
        assert(rest[i] == events[i]);
        assert forall|j: int| i < j < rest.len() implies !((
        #[trigger] rest[j]).pdu.state_key == rest[i].pdu.state_key && rest[j].pdu.content.label()
            == rest[i].pdu.content.label()) by {
            assert(rest[j] == events[j]);
        }
        lemma_still_current(rest, i);
        let before = current_state(rest);
        let k = choose|k: int| 0 <= k < before.len() && #[trigger] before[k] == events[i];
        let e = events[last];
        assert(!(e.pdu.state_key == events[i].pdu.state_key && e.pdu.content.label()
            == events[i].pdu.content.label()));
        if e.pdu.state_key is Some {
            let kept = crate::storage::without_state(
                before,
                e.pdu.content.label(),
                e.pdu.state_key->0,
            );
            lemma_kept(before, e.pdu.content.label(), e.pdu.state_key->0, k);
            let m = choose|m: int| 0 <= m < kept.len() && #[trigger] kept[m] == before[k];
            assert(state[m] == events[i]);
        } else {
            assert(state[k] == events[i]);
        }
    }
}

proof fn lemma_kept(events: Seq<StoredView>, ty: Seq<char>, key: Seq<char>, k: int)
    requires
        0 <= k < events.len(),
        !(events[k].pdu.state_key == Some(key) && events[k].pdu.content.label() == ty),
    ensures
        exists|m: int|
            0 <= m < crate::storage::without_state(events, ty, key).len()
                && #[trigger] crate::storage::without_state(events, ty, key)[m] == events[k],
    decreases events.len(),
{
    let kept = crate::storage::without_state(events, ty, key);
    if k == events.len() - 1 {
        assert(kept[kept.len() - 1] == events[k]);
    } else {
        let rest = events.drop_last();
        assert(rest[k] == events[k]);
        lemma_kept(rest, ty, key, k);
        let fewer = crate::storage::without_state(rest, ty, key);
        let m = choose|m: int| 0 <= m < fewer.len() && #[trigger] fewer[m] == rest[k];
        assert(kept[m] == events[k]);
    }
}

/// Invitations are shown once: who asks again with the batch that they were given is not shown those that
/// they were shown, until they have joined.
pub proof fn law_invitation_shown_once<S: Storage>(
    step: SyncStep,
    before: StorageView,
    after: StorageView,
    user: Seq<char>,
    req: SyncRequest,
    next_batch: Seq<char>,
    now: u64,
    room: Seq<char>,
)
    requires
        syncs::<S>(step, before, after, user, req, next_batch, now),
        stands(before, user, room, Membership::Invite),
    ensures
        step is Done ==> after.batches.contains_key(next_batch)
            && after.batches[next_batch].invites.contains(room),
        step matches SyncStep::Wait(waiting) ==> waiting.batch@.invites.contains(room),
        batch_named(before, crate::text::text_opt(req.since)).invites.contains(room)
            ==> !rooms_of(answer_of(step)).1.contains_key(room),
{
    assert(memberships_in(before.rooms, user).dom().contains(room));
}

/// Those who have joined a room are told of it all that has happened from the position up to which they
/// have read, in its order, the state where they ask for it, and how many have joined and are invited.
pub proof fn law_joined_told<S: Storage>(
    step: SyncStep,
    before: StorageView,
    after: StorageView,
    user: Seq<char>,
    req: SyncRequest,
    next_batch: Seq<char>,
    now: u64,
    room: Seq<char>,
    i: int,
)
    requires
        syncs::<S>(step, before, after, user, req, next_batch, now),
        before.rooms.contains_key(room),
        last_says(before.rooms[room].events, user, Membership::Join, i),
    ensures
        ({
            let batch = batch_named(before, crate::text::text_opt(req.since));
            let from = if batch.rooms.contains_key(room) {
                batch.rooms[room] as int
            } else {
                0
            };
            let events = before.rooms[room].events;
            let state = current_state(events);
            let told = rooms_of(answer_of(step)).0[room];
            &&& rooms_of(answer_of(step)).0.contains_key(room)
            &&& !rooms_of(answer_of(step)).1.contains_key(room)
            &&& told.timeline.len() == (if from < events.len() {
                events.len() - from
            } else {
                0
            })
            &&& forall|k: int|
                0 <= k < told.timeline.len() ==> shows_event(
                    #[trigger] told.timeline[k],
                    events[from + k],
                )
            &&& !told.limited
            &&& told.state.len() == (if req.full_state {
                state.len() as int
            } else {
                0
            })
            &&& forall|k: int|
                0 <= k < told.state.len() ==> shows_event(#[trigger] told.state[k], state[k])
            &&& told.summary.heroes is None
            &&& told.summary.joined_member_count == count_members(state, Membership::Join)
            &&& told.summary.invited_member_count == count_members(state, Membership::Invite)
            &&& told.account_data.len() == 0
        }),
{
    law_stands(before, user, room, Membership::Join, i);
    let batch = batch_named(before, crate::text::text_opt(req.since));
    let from = unread_from(batch, room);
    let events = before.rooms[room].events;
    let told = rooms_of(answer_of(step)).0[room];
    assert(memberships_in(before.rooms, user).dom().contains(room));
    assert(rooms_of(answer_of(step)).0.contains_key(room));
    assert(told.timeline == news(before, room, from));
    if from < events.len() {
        let rest = events.subrange(from as int, events.len() as int);
        lemma_news(rest, room, from);
    }
}

proof fn lemma_news(events: Seq<StoredView>, room: Seq<char>, from: usize)
    ensures
        matching(events, news_query(room, from)) == events,
    decreases events.len(),
{
    if events.len() > 0 {
        lemma_news(events.drop_last(), room, from);
        assert(events.drop_last().push(events.last()) =~= events);
    }
}

/// Nobody is told of rooms that they have not joined and are not invited to, nor of rooms as left, nor of
/// anything besides rooms.
pub proof fn law_only_own_rooms<S: Storage>(
    step: SyncStep,
    before: StorageView,
    after: StorageView,
    user: Seq<char>,
    req: SyncRequest,
    next_batch: Seq<char>,
    now: u64,
    room: Seq<char>,
)
    requires
        syncs::<S>(step, before, after, user, req, next_batch, now),
    ensures
        rooms_of(answer_of(step)).0.contains_key(room) ==> stands(
            before,
            user,
            room,
            Membership::Join,
        ),
        rooms_of(answer_of(step)).1.contains_key(room) ==> stands(
            before,
            user,
            room,
            Membership::Invite,
        ),
        !left_rooms(answer_of(step)).contains_key(room),
        answer_of(step).presence is None,
        answer_of(step).account_data.events@.len() == 0,
        answer_of(step).next_batch@ == next_batch,
{
}

/// An answer is given at once where there is news of a room that the user has joined, or where they have
/// joined none, and what they have read is remembered under the name that they are given. Otherwise it
/// waits as long as they say, and nothing is changed.
pub proof fn law_when_answered<S: Storage>(
    step: SyncStep,
    before: StorageView,
    after: StorageView,
    user: Seq<char>,
    req: SyncRequest,
    next_batch: Seq<char>,
    now: u64,
)
    requires
        syncs::<S>(step, before, after, user, req, next_batch, now),
    ensures
        step is Done <==> (forall|room: Seq<char>| !#[trigger]
            stands(before, user, room, Membership::Join)) || exists|room: Seq<char>| #[trigger]
            stands(before, user, room, Membership::Join) && ({
                let told = rooms_of(answer_of(step)).0[room];
                told.timeline.len() > 0 || told.state.len() > 0
            }),
        step is Done ==> after.batches.contains_key(next_batch) && after.batches.remove(next_batch)
            == before.batches.remove(next_batch) && after.users == before.users && after.tokens
            == before.tokens && after.txns == before.txns && after.rooms == before.rooms,
        step matches SyncStep::Wait(waiting) ==> after == before && waiting.timeout == req.timeout,
{
    let batch = batch_named(before, crate::text::text_opt(req.since));
    let told = memberships_in(before.rooms, user).dom();
    assert forall|room: Seq<char>| #[trigger] stands(before, user, room, Membership::Join) implies (
    has_news(before, user, batch, room, req.full_state) == ({
        let shown = rooms_of(answer_of(step)).0[room];
        shown.timeline.len() > 0 || shown.state.len() > 0
    })) && told.contains(room) by {
        assert(told.contains(room));
        assert(rooms_of(answer_of(step)).0.contains_key(room));
    }
    if step is Done {
        assert(after.batches.remove(next_batch) =~= before.batches.remove(next_batch));
    }
}

/// The rooms of whom a user has been told are read to their end, and what they had read of others stays.
pub proof fn law_read_so_far<S: Storage>(
    step: SyncStep,
    before: StorageView,
    after: StorageView,
    user: Seq<char>,
    req: SyncRequest,
    next_batch: Seq<char>,
    now: u64,
    room: Seq<char>,
)
    requires
        syncs::<S>(step, before, after, user, req, next_batch, now),
        step is Done,
    ensures
        ({
            let old_batch = batch_named(before, crate::text::text_opt(req.since));
            let new_batch = after.batches[next_batch];
            &&& stands(before, user, room, Membership::Join) && 0 < before.rooms[room].events.len()
                <= usize::MAX ==> new_batch.rooms.contains_key(room) && new_batch.rooms[room]
                == before.rooms[room].events.len() && !new_batch.invites.contains(room)
            &&& !stands(before, user, room, Membership::Join) ==> new_batch.rooms.contains_key(room)
                == old_batch.rooms.contains_key(room) && (old_batch.rooms.contains_key(room)
                ==> new_batch.rooms[room] == old_batch.rooms[room])
            &&& !stands(before, user, room, Membership::Join) && !stands(
                before,
                user,
                room,
                Membership::Invite,
            ) ==> new_batch.invites.contains(room) == old_batch.invites.contains(room)
        }),
{
}

/// A user goes on from the batch that they name; who names none, or one that is not known, has read nothing
/// unless something is kept for those who name none.
pub proof fn law_batch_named(s: StorageView, id: Seq<char>)
    ensures
        s.batches.contains_key(id) ==> batch_named(s, Some(id)) == s.batches[id],
        !s.batches.contains_key(id) ==> batch_named(s, Some(id)).rooms == Map::<
            Seq<char>,
            usize,
        >::empty() && batch_named(s, Some(id)).invites == Set::<Seq<char>>::empty(),
        batch_named(s, None) == batch_named(s, Some("empty"@)),
{
}

/// Whether an event makes someone a member in a given way.
pub open spec fn makes(e: StoredView, membership: Membership) -> bool {
    e.pdu.content matches ContentView::Member(m) && m.membership == membership
}

/// The members that are counted are those whom some event of the state makes members in that way.
pub proof fn law_members_counted(events: Seq<StoredView>, membership: Membership)
    requires
        forall|i: int| 0 <= i < events.len() ==> (#[trigger] events[i]).pdu.content.well_labelled(),
    ensures
        count_members(events, membership) == events.filter(
            |e: StoredView| makes(e, membership),
        ).len(),
    decreases events.len(),
{
    let made = |e: StoredView| makes(e, membership);
    reveal(Seq::filter);
    if events.len() > 0 {
        let rest = events.drop_last();
        assert forall|i: int| 0 <= i < rest.len() implies (
        #[trigger] rest[i]).pdu.content.well_labelled() by {
            assert(rest[i] == events[i]);
        }
        law_members_counted(rest, membership);
        let e = events[events.len() - 1];
        assert(e.pdu.content.well_labelled());
        lemma_makes(e, membership);
    }
}

proof fn lemma_makes(e: StoredView, membership: Membership)
    requires
        e.pdu.content.well_labelled(),
    ensures
        is_member_event(e, membership) == makes(e, membership),
{
    crate::events::laws::law_types(e.pdu.content);
    if e.pdu.content is Member {
        let m = e.pdu.content->Member_0;
        crate::events::laws::law_content_json(e.pdu.content);
        let wanted = crate::events::room::single(
            "membership"@,
            Json::Text(crate::events::room::membership_name(membership)),
        )->Object_0;
        assert(wanted.contains_key("membership"@));
        crate::events::room::law_membership_names(membership);
        crate::events::room::law_membership_names(m.membership);
        let json = e.pdu.content.json();
        assert(json->Object_0["membership"@] == Json::Text(
            crate::events::room::membership_name(m.membership),
        ));
        if m.membership == membership {
            assert(crate::storage::contains_members(json, wanted));
        }
    } else if e.pdu.content.kind() is Some {
        crate::events::law_kind_names(e.pdu.content.kind()->0);
        crate::events::law_kind_names(crate::events::ContentKind::Member);
    } else {
        crate::events::law_kind_names(crate::events::ContentKind::Member);
    }
}

/// A summary is given of exactly the rooms that a user has joined, with the numbers of those who have
/// joined and of those who are invited.
pub proof fn law_summaries(s: StorageView, user: Seq<char>, room: Seq<char>)
    ensures
        summaries(s, user).contains_key(room) == stands(s, user, room, Membership::Join),
        summaries(s, user).contains_key(room) ==> ({
            let state = current_state(s.rooms[room].events);
            let summary = summaries(s, user)[room];
            summary.heroes is None && summary.joined_member_count == count_members(
                state,
                Membership::Join,
            ) && summary.invited_member_count == count_members(state, Membership::Invite)
        }),
{
}

/// An answer that has waited to no end is given as it was, and one that has not tells of the room in which
/// something has happened, in place of what it told of it, and otherwise what it told.
pub proof fn law_waited<S: Storage>(
    response: SyncResponse,
    before: StorageView,
    after: StorageView,
    waiting: Waiting,
    room: Option<Seq<char>>,
    now: u64,
    other: Seq<char>,
)
    requires
        resumes::<S>(response, before, after, waiting, room, now),
    ensures
        response.next_batch@ == waiting.response.next_batch@,
        after.rooms == before.rooms && after.users == before.users && after.tokens == before.tokens
            && after.txns == before.txns,
        room is None ==> response == waiting.response
            && after.batches[waiting.response.next_batch@] == waiting.batch@,
        room != Some(other) ==> rooms_of(response).0.contains_key(other) == rooms_of(
            waiting.response,
        ).0.contains_key(other) && (rooms_of(response).0.contains_key(other) ==> rooms_of(
            response,
        ).0[other] == rooms_of(waiting.response).0[other]),
        rooms_of(response).1 == rooms_of(waiting.response).1,
        room == Some(other) ==> rooms_of(response).0.contains_key(other) && ({
            let events = before.rooms[other].events;
            let from = waiting.ends@[other];
            let told = rooms_of(response).0[other];
            &&& told.timeline.len() == (if from < events.len() {
                events.len() - from
            } else {
                0
            })
            &&& forall|k: int|
                0 <= k < told.timeline.len() ==> shows_event(
                    #[trigger] told.timeline[k],
                    events[from + k],
                )
            &&& told.state.len() == 0
        }),
{
    if room is Some {
        let id = room->0;
        let shown = rooms_of(response).0;
        let kept = rooms_of(waiting.response).0;
        if other != id {
            assert(shown.remove(id).contains_key(other) == kept.remove(id).contains_key(other));
            assert(shown.remove(id)[other] == kept.remove(id)[other]);
        } else {
            let events = before.rooms[other].events;
            let from = waiting.ends@[other];
            if from < events.len() {
                let rest = events.subrange(from as int, events.len() as int);
                lemma_news(rest, other, from);
            }
        }
    }
}

/// Whoever asks what has happened is answered as the user of their token, and the next batch is named by a
/// number.
pub proof fn law_sync_asked<S: Storage>(
    state: &mut ServerState<S>,
    token: AccessToken,
    req: SyncRequest,
    number: u64,
    now: u64,
    r: Result<SyncStep, ErrorKind>,
)
    requires
        call_ensures(sync_with::<S>, (state, token, req, number, now), r),
        !db_failed(r),
    ensures
        r is Ok <==> old(state).db@.tokens.contains_key(token.0),
        r is Ok ==> syncs::<S>(
            r->Ok_0,
            old(state).db@,
            final(state).db@,
            mxid_of(old(state).db@.tokens[token.0], old(state).config.domain@),
            req,
            crate::text::hex(number as nat, false),
            now,
        ),
        r is Err ==> r->Err_0@ == ErrorView::UnknownToken && final(state).db@ == old(state).db@,
{
}

/// Those who are invited are shown, when they ask, whom each event of the state of the room is about.
pub proof fn law_invited_asks<S: Storage>(
    state: &mut ServerState<S>,
    token: AccessToken,
    req: SyncRequest,
    number: u64,
    now: u64,
    r: Result<SyncStep, ErrorKind>,
    room: Seq<char>,
    i: int,
)
    requires
        call_ensures(sync_with::<S>, (state, token, req, number, now), r),
        r is Ok,
        old(state).db@.rooms.contains_key(room),
        last_says(
            old(state).db@.rooms[room].events,
            mxid_of(old(state).db@.tokens[token.0], old(state).config.domain@),
            Membership::Invite,
            i,
        ),
        req.since is None,
        !old(state).db@.batches.contains_key("empty"@),
    ensures
        ({
            let user = mxid_of(old(state).db@.tokens[token.0], old(state).config.domain@);
            let answer = answer_of(r->Ok_0);
            &&& answer.rooms is Some && answer.rooms->0.invite@.contains_key(room)
            &&& ({
                let shown = answer.rooms->0.invite@[room];
                let stored = current_state(old(state).db@.rooms[room].events);
                &&& shown.len() == stored.len()
                &&& forall|k: int|
                    0 <= k < shown.len() ==> Some((#[trigger] shown[k]).state_key)
                        == stored[k].pdu.state_key && shown[k].content == stored[k].pdu.content
                        && shown[k].sender == stored[k].pdu.sender
                &&& exists|k: int|
                    0 <= k < shown.len() && (#[trigger] shown[k]).state_key == user && (
                    shown[k].content matches ContentView::Member(m) && m.membership
                        == Membership::Invite)
            })
        }),
{
    law_sync_asked(state, token, req, number, now, r);
    let user = mxid_of(old(state).db@.tokens[token.0], old(state).config.domain@);
    law_invitation_shown::<S>(
        r->Ok_0,
        old(state).db@,
        final(state).db@,
        user,
        req,
        crate::text::hex(number as nat, false),
        now,
        room,
        i,
    );
    let answer = answer_of(r->Ok_0);
    assert(rooms_of(answer).1.contains_key(room));
    assert(answer.rooms is Some);
    assert(rooms_of(answer).1 == answer.rooms->0.invite@);
}

/// An answer that has waited is given as it should be.
pub proof fn law_resumed<S: Storage>(
    state: &mut ServerState<S>,
    waiting: Waiting,
    room: Option<String>,
    now: u64,
    r: Result<SyncResponse, ErrorKind>,
)
    requires
        call_ensures(resume::<S>, (state, waiting, room, now), r),
        !db_failed(r),
    ensures
        r is Ok <==> (room is Some ==> old(state).db@.rooms.contains_key(room->0@)),
        r is Ok ==> resumes::<S>(
            r->Ok_0,
            old(state).db@,
            final(state).db@,
            waiting,
            crate::text::text_opt(room),
            now,
        ),
        r is Err ==> r->Err_0@ == ErrorView::RoomNotFound && final(state).db@ == old(state).db@,
{
}

/// The summaries that are given are those of the rooms of the user of the token.
pub proof fn law_summaries_asked<S: Storage>(
    state: &ServerState<S>,
    token: AccessToken,
    r: Result<crate::client::sync::SyncResponse, ErrorKind>,
)
    requires
        call_ensures(crate::client::sync::sync::<S>, (state, token), r),
        !db_failed(r),
    ensures
        r is Ok <==> state.db@.tokens.contains_key(token.0),
        r is Ok ==> r->Ok_0.next_batch@.len() == 0 && r->Ok_0.join@ == summaries(
            state.db@,
            mxid_of(state.db@.tokens[token.0], state.config.domain@),
        ),
        r is Err ==> r->Err_0@ == ErrorView::UnknownToken,
{
    reveal_strlit("");
}

/// Users who ask are online unless they say otherwise.
pub proof fn law_online(p: SetPresence)
    requires
        call_ensures(crate::client::room_sync::default_set_presence, (), p),
    ensures
        p is Online,
{
}

/// Those who have joined a room are told the ephemeral events of it, each type once, with the users under
/// `m.typing`.
pub proof fn law_ephemeral_told<S: Storage>(
    step: SyncStep,
    before: StorageView,
    after: StorageView,
    user: Seq<char>,
    req: SyncRequest,
    next_batch: Seq<char>,
    now: u64,
    room: Seq<char>,
    i: int,
    ty: Seq<char>,
)
    requires
        syncs::<S>(step, before, after, user, req, next_batch, now),
        before.rooms.contains_key(room),
        last_says(before.rooms[room].events, user, Membership::Join, i),
    ensures
        ({
            let kept = before.rooms[room].ephemeral;
            let told = rooms_of(answer_of(step)).0[room].ephemeral;
            &&& forall|a: int, b: int|
                0 <= a < b < told.len() ==> (#[trigger] told[a]).0 != (#[trigger] told[b]).0
            &&& ty != "m.typing"@ && kept.contains_key(ty) ==> told.contains((ty, kept[ty]))
            &&& forall|k: int|
                0 <= k < told.len() && (#[trigger] told[k]).0 != "m.typing"@ ==> kept.contains_key(
                    told[k].0,
                ) && kept[told[k].0] == told[k].1
            &&& exists|k: int|
                0 <= k < told.len() && (#[trigger] told[k]).0 == "m.typing"@
                    && crate::events::ephemeral::says_typing(
                    told[k].1,
                    S::listed_typing(before.rooms[room].typing, now),
                )
        }),
{
    law_stands(before, user, room, Membership::Join, i);
    assert(memberships_in(before.rooms, user).dom().contains(room));
    assert(rooms_of(answer_of(step)).0.contains_key(room));
    let kept = before.rooms[room].ephemeral;
    let told = rooms_of(answer_of(step)).0[room].ephemeral;
    let all = map_of(told);
    assert forall|k: int| 0 <= k < told.len() implies all.contains_key((#[trigger] told[k]).0)
        && all[told[k].0] == told[k].1 by {
        lemma_map_of_entry(told, k);
    }
    assert forall|k: int|
        0 <= k < told.len() && (#[trigger] told[k]).0 != "m.typing"@ implies kept.contains_key(
        told[k].0,
    ) && kept[told[k].0] == told[k].1 by {
        assert(all.remove("m.typing"@).contains_key(told[k].0) == kept.remove(
            "m.typing"@,
        ).contains_key(told[k].0));
        assert(all.remove("m.typing"@)[told[k].0] == kept.remove("m.typing"@)[told[k].0]);
    }
    if ty != "m.typing"@ && kept.contains_key(ty) {
        assert(kept.remove("m.typing"@).contains_key(ty));
        assert(all.remove("m.typing"@).contains_key(ty));
        assert(has_key(told, ty));
        let k = choose|k: int| 0 <= k < told.len() && (#[trigger] told[k]).0 == ty;
        assert(told[k].0 == ty);
        assert(told[k] == (ty, kept[ty]));
    }
    assert(has_key(told, "m.typing"@));
    let k = choose|k: int| 0 <= k < told.len() && (#[trigger] told[k]).0 == "m.typing"@;
    assert(told[k].0 == "m.typing"@);
}

} // verus!
