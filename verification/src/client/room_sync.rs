//! What has happened in the rooms of a user since they last asked.
use crate::client::auth::AccessToken;
use crate::dict::{distinct_keys, lemma_map_of_entry, map_of, Dict, Duplicate};
use crate::error::{ErrorKind, ErrorView};
use crate::events::room::Membership;
use crate::events::{ContentView, Event, EventContent, EventView};
use crate::json::{Json, JsonValue};
use crate::outside::random_u64;
use crate::server::{caller_of, ServerState};
use crate::storage::{
    client_events, current_state, db_failed, empty_batch, event_views, id_texts, memberships_in,
    query_answer, query_end, shows_ephemeral, str_texts, Batch, BatchView, EventQuery, QueryType,
    QueryTypeView, QueryView, Storage, StorageView,
};
use crate::text::{hex, text_opt, texts, to_hex};
use crate::util::mxid::{mxid_of, MatrixId};
use vstd::prelude::*;

verus! {

/// Provided in URL query params
pub struct SyncRequest {
    pub filter: Option<String>,
    pub since: Option<String>,
    pub full_state: bool,
    pub set_presence: SetPresence,
    pub timeout: u32,
}

#[derive(Debug, PartialEq, Eq, Structural, Clone, Copy)]
pub enum SetPresence {
    Offline,
    Online,
    Unavailable,
}

/// Users who ask are online unless they say otherwise.
pub fn default_set_presence() -> (p: SetPresence)
    ensures
        p == SetPresence::Online,
{
    SetPresence::Online
}

pub struct SyncResponse {
    pub next_batch: String,
    pub rooms: Option<Rooms>,
    pub presence: Option<Presence>,
    pub account_data: AccountData,
}

pub struct Rooms {
    pub join: Dict<String, JoinedRoom>,
    pub invite: Dict<String, InvitedRoom>,
    pub leave: Dict<String, LeftRoom>,
}

pub struct JoinedRoom {
    pub summary: RoomSummary,
    pub state: State,
    pub timeline: Timeline,
    pub ephemeral: Ephemeral,
    pub account_data: AccountData,
}

pub struct RoomSummary {
    pub heroes: Option<Vec<String>>,
    pub joined_member_count: usize,
    pub invited_member_count: usize,
}

pub struct State {
    pub events: Vec<Event>,
}

pub struct Timeline {
    pub events: Vec<Event>,
    pub limited: bool,
    pub prev_batch: String,
}

pub struct Ephemeral {
    pub events: Vec<KvPair>,
}

/// Content with its type, and nothing of what makes up an event of a room.
pub struct KvPair {
    pub content: JsonValue,
    pub ty: String,
}

pub struct AccountData {
    pub events: Vec<KvPair>,
}

pub struct InvitedRoom {
    pub invite_state: InviteState,
}

pub struct InviteState {
    pub events: Vec<StrippedState>,
}

pub struct StrippedState {
    pub content: EventContent,
    pub state_key: String,
    pub sender: MatrixId,
}

pub struct LeftRoom {
    pub state: State,
    pub timeline: Timeline,
    pub account_data: AccountData,
}

pub struct Presence {
    pub events: Vec<KvPair>,
}

/// What a `RoomSummary` says.
pub struct SummaryView {
    pub heroes: Option<Seq<Seq<char>>>,
    pub joined_member_count: nat,
    pub invited_member_count: nat,
}

/// What a `JoinedRoom` says.
pub struct JoinedView {
    pub summary: SummaryView,
    pub state: Seq<EventView>,
    pub timeline: Seq<EventView>,
    pub limited: bool,
    pub prev_batch: Seq<char>,
    pub ephemeral: Seq<(Seq<char>, Json)>,
    pub account_data: Seq<(Seq<char>, Json)>,
}

/// What a `StrippedState` says.
pub struct StrippedView {
    pub content: ContentView,
    pub state_key: Seq<char>,
    pub sender: Seq<char>,
}

/// What a `LeftRoom` says.
pub struct LeftView {
    pub state: Seq<EventView>,
    pub timeline: Seq<EventView>,
    pub limited: bool,
    pub prev_batch: Seq<char>,
    pub account_data: Seq<(Seq<char>, Json)>,
}

/// The contents of a list of pairs, each type with its content.
pub open spec fn pair_views(pairs: Seq<KvPair>) -> Seq<(Seq<char>, Json)> {
    Seq::new(pairs.len(), |i: int| (pairs[i].ty@, pairs[i].content@))
}

/// The contents of a list of stripped state events.
pub open spec fn stripped_views(events: Seq<StrippedState>) -> Seq<StrippedView> {
    Seq::new(events.len(), |i: int| events[i]@)
}

impl View for RoomSummary {
    type V = SummaryView;

    open spec fn view(&self) -> SummaryView {
        SummaryView {
            heroes: match self.heroes {
                Some(names) => Some(texts(names@)),
                None => None,
            },
            joined_member_count: self.joined_member_count as nat,
            invited_member_count: self.invited_member_count as nat,
        }
    }
}

impl View for JoinedRoom {
    type V = JoinedView;

    open spec fn view(&self) -> JoinedView {
        JoinedView {
            summary: self.summary@,
            state: event_views(self.state.events@),
            timeline: event_views(self.timeline.events@),
            limited: self.timeline.limited,
            prev_batch: self.timeline.prev_batch@,
            ephemeral: pair_views(self.ephemeral.events@),
            account_data: pair_views(self.account_data.events@),
        }
    }
}

impl View for StrippedState {
    type V = StrippedView;

    open spec fn view(&self) -> StrippedView {
        StrippedView {
            content: self.content@,
            state_key: self.state_key@,
            sender: self.sender@,
        }
    }
}

impl View for InvitedRoom {
    type V = Seq<StrippedView>;

    open spec fn view(&self) -> Seq<StrippedView> {
        stripped_views(self.invite_state.events@)
    }
}

impl View for LeftRoom {
    type V = LeftView;

    open spec fn view(&self) -> LeftView {
        LeftView {
            state: event_views(self.state.events@),
            timeline: event_views(self.timeline.events@),
            limited: self.timeline.limited,
            prev_batch: self.timeline.prev_batch@,
            account_data: pair_views(self.account_data.events@),
        }
    }
}

/// The question for all that has happened in a room from a position on.
pub open spec fn news_query(room: Seq<char>, from: usize) -> QueryView {
    QueryView {
        query_type: QueryTypeView::Timeline { from, to: None },
        room_id: room,
        senders: Seq::empty(),
        not_senders: Seq::empty(),
        types: Seq::empty(),
        not_types: Seq::empty(),
        contains_json: None,
    }
}

/// The position after one, within what a number can hold.
pub open spec fn next_position(position: int) -> usize {
    if position < usize::MAX {
        (position + 1) as usize
    } else {
        usize::MAX
    }
}

/// The position from which a user has not read a room.
pub open spec fn unread_from(batch: BatchView, room: Seq<char>) -> usize {
    if batch.rooms.contains_key(room) {
        batch.rooms[room]
    } else {
        0
    }
}

/// What has happened in a room from a position on.
pub open spec fn news(s: StorageView, room: Seq<char>, from: usize) -> Seq<EventView> {
    client_events(query_answer(s.rooms[room].events, news_query(room, from)))
}

/// The position up to which a user has read a room once they have been told the news.
pub open spec fn read_up_to(s: StorageView, room: Seq<char>) -> usize {
    next_position(query_end(s.rooms[room].events, news_query(room, 0)))
}

/// The current state of a room.
pub open spec fn state_now(s: StorageView, room: Seq<char>) -> Seq<EventView> {
    client_events(current_state(s.rooms[room].events))
}

/// Whether an answer on a room that the user has joined tells what there is to tell.
pub open spec fn tells_room<S: Storage>(
    told: JoinedView,
    s: StorageView,
    room: Seq<char>,
    from: usize,
    full_state: bool,
    now: u64,
) -> bool {
    &&& told.summary == crate::client::sync::summary_of(s, room)
    &&& told.state == (if full_state {
        state_now(s, room)
    } else {
        Seq::empty()
    })
    &&& told.timeline == news(s, room, from)
    &&& !told.limited
    &&& told.prev_batch == "empty"@
    &&& distinct_keys(told.ephemeral)
    &&& shows_ephemeral(
        map_of(told.ephemeral),
        s.rooms[room],
        S::listed_typing(s.rooms[room].typing, now),
    )
    &&& told.account_data.len() == 0
}

/// A state event as those see it who are invited.
pub open spec fn stripped(e: EventView) -> StrippedView {
    StrippedView { content: e.content, state_key: e.state_key->0, sender: e.sender }
}

/// The state of a room as those see it who are invited.
pub open spec fn invite_state(s: StorageView, room: Seq<char>) -> Seq<StrippedView> {
    Seq::new(state_now(s, room).len(), |i: int| stripped(state_now(s, room)[i]))
}

/// Whether a user stands to a room in a given way.
pub open spec fn stands(
    s: StorageView,
    user: Seq<char>,
    room: Seq<char>,
    membership: Membership,
) -> bool {
    memberships_in(s.rooms, user).contains_key(room) && memberships_in(s.rooms, user)[room]
        == membership
}

/// How far a user has read once they have been told of some rooms.
pub open spec fn batch_after(
    s: StorageView,
    user: Seq<char>,
    batch: BatchView,
    told: Set<Seq<char>>,
) -> BatchView {
    BatchView {
        rooms: Map::new(
            |room: Seq<char>|
                batch.rooms.contains_key(room) || (told.contains(room) && stands(
                    s,
                    user,
                    room,
                    Membership::Join,
                )),
            |room: Seq<char>|
                if told.contains(room) && stands(s, user, room, Membership::Join) {
                    read_up_to(s, room)
                } else {
                    batch.rooms[room]
                },
        ),
        invites: Set::new(
            |room: Seq<char>|
                if told.contains(room) && stands(s, user, room, Membership::Join) {
                    false
                } else {
                    batch.invites.contains(room) || (told.contains(room) && stands(
                        s,
                        user,
                        room,
                        Membership::Invite,
                    ))
                },
        ),
    }
}

/// Whether the answer on some rooms tells what there is to tell: of each that the user has joined
/// the news, and of each invitation that they did not know of the state.
pub open spec fn tells_rooms<S: Storage>(
    join: Map<Seq<char>, JoinedView>,
    invite: Map<Seq<char>, Seq<StrippedView>>,
    s: StorageView,
    user: Seq<char>,
    batch: BatchView,
    told: Set<Seq<char>>,
    full_state: bool,
    now: u64,
) -> bool {
    &&& forall|room: Seq<char>| #[trigger]
        join.contains_key(room) <==> told.contains(room) && stands(s, user, room, Membership::Join)
    &&& forall|room: Seq<char>| #[trigger]
        join.contains_key(room) ==> tells_room::<S>(
            join[room],
            s,
            room,
            unread_from(batch, room),
            full_state,
            now,
        )
    &&& forall|room: Seq<char>| #[trigger]
        invite.contains_key(room) <==> told.contains(room) && stands(
            s,
            user,
            room,
            Membership::Invite,
        ) && !batch.invites.contains(room)
    &&& forall|room: Seq<char>| #[trigger]
        invite.contains_key(room) ==> invite[room] == invite_state(s, room)
}

/// Whether a room that the user has joined has something to tell.
pub open spec fn has_news(
    s: StorageView,
    user: Seq<char>,
    batch: BatchView,
    room: Seq<char>,
    full_state: bool,
) -> bool {
    stands(s, user, room, Membership::Join) && (news(s, room, unread_from(batch, room)).len() > 0
        || (full_state && state_now(s, room).len() > 0))
}

/// An answer that has yet to be given: it waits for something to happen in one of the rooms that the
/// user has joined, or for the time that the user gives it.
pub struct Waiting {
    pub response: SyncResponse,
    pub batch: Batch,
    /// The rooms that are waited for, each with the position up to which it was looked at.
    pub ends: Dict<String, usize>,
    pub timeout: u32,
}

/// What comes of a question for what has happened.
pub enum SyncStep {
    Done(SyncResponse),
    Wait(Waiting),
}

/// The rooms of an answer: none where there is nothing to tell of any.
pub open spec fn rooms_of(response: SyncResponse) -> (
    Map<Seq<char>, JoinedView>,
    Map<Seq<char>, Seq<StrippedView>>,
) {
    match response.rooms {
        Some(rooms) => (rooms.join@, rooms.invite@),
        None => (Map::empty(), Map::empty()),
    }
}

/// The rooms of an answer that the user has left.
pub open spec fn left_rooms(response: SyncResponse) -> Map<Seq<char>, LeftView> {
    match response.rooms {
        Some(rooms) => rooms.leave@,
        None => Map::empty(),
    }
}

/// Whether an answer has the shape that all answers have.
pub open spec fn is_answer(response: SyncResponse, next_batch: Seq<char>) -> bool {
    &&& response.next_batch@ == next_batch
    &&& response.presence is None
    &&& response.account_data.events@.len() == 0
    &&& response.rooms is Some ==> response.rooms->0.leave@ == Map::<Seq<char>, LeftView>::empty()
        && (rooms_of(response).0 != Map::<Seq<char>, JoinedView>::empty() || rooms_of(response).1
        != Map::<Seq<char>, Seq<StrippedView>>::empty())
}

/// The batch that a user refers to.
pub open spec fn batch_named(s: StorageView, since: Option<Seq<char>>) -> BatchView {
    let id = match since {
        Some(id) => id,
        None => "empty"@,
    };
    if s.batches.contains_key(id) {
        s.batches[id]
    } else {
        empty_batch()
    }
}

/// Tells of a room that the user has joined.
fn tell_room<S: Storage>(db: &S, room_id: &str, from: usize, full_state: bool, now: u64) -> (r:
    Result<(JoinedRoom, usize), ErrorKind>)
    ensures
        match r {
            Ok((told, end)) => db@.rooms.contains_key(room_id@) && tells_room::<S>(
                told@,
                db@,
                room_id@,
                from,
                full_state,
                now,
            ) && end == query_end(db@.rooms[room_id@].events, news_query(room_id@, 0)),
            Err(e) => if db_failed(r) {
                !db.reliable()
            } else {
                e@ == ErrorView::RoomNotFound && !db@.rooms.contains_key(room_id@)
            },
        },
{
    let none: Vec<&str> = Vec::new();
    let nobody: Vec<&MatrixId> = Vec::new();
    let query = EventQuery {
        query_type: QueryType::Timeline { from, to: None },
        room_id,
        senders: nobody.as_slice(),
        not_senders: nobody.as_slice(),
        types: none.as_slice(),
        not_types: none.as_slice(),
        contains_json: None,
    };
    proof {
        assert(str_texts(none@) =~= Seq::<Seq<char>>::empty());
        assert(id_texts(nobody@) =~= Seq::<Seq<char>>::empty());
        assert(query@ == news_query(room_id@, from));
    }
    let (events, end) = match db.query_events(&query) {
        Ok(found) => found,
        Err(e) => return Err(e),
    };
    let mut state_events: Vec<Event> = Vec::new();
    assert(event_views(state_events@) =~= Seq::<EventView>::empty());
    if full_state {
        state_events = match db.get_full_state(room_id) {
            Ok(events) => events,
            Err(e) => return Err(e),
        };
    }
    let (joined, invited) = match db.get_room_member_counts(room_id) {
        Ok(counts) => counts,
        Err(e) => return Err(e),
    };
    let all = match db.get_all_ephemeral(room_id, now) {
        Ok(all) => all,
        Err(e) => return Err(e),
    };
    let ghost listing = all.listing();
    let mut pairs: Vec<KvPair> = Vec::new();
    let n: usize = all.len();
    let mut i: usize = 0;
    while i < n
        invariant
            i <= n == listing.len(),
            listing == all.listing(),
            pairs@.len() == i,
            forall|j: int|
                0 <= j < i ==> pair_views(pairs@)[j] == #[trigger] listing[j],
        decreases n - i,
    {
        let e = all.entry(i);
        let ghost before = pair_views(pairs@);
        pairs.push(KvPair { ty: e.0.clone(), content: e.1.duplicate() });
        proof {
            let after = pair_views(pairs@);
            assert forall|j: int| 0 <= j < i + 1 implies after[j] == #[trigger] listing[j] by {
                if j < i {
                    assert(after[j] == before[j]);
                }
            }
        }
        i += 1;
    }
    assert(pair_views(pairs@) =~= listing);
    let told = JoinedRoom {
        summary: RoomSummary {
            heroes: None,
            joined_member_count: joined,
            invited_member_count: invited,
        },
        state: State { events: state_events },
        timeline: Timeline { events, limited: false, prev_batch: "empty".to_owned() },
        ephemeral: Ephemeral { events: pairs },
        account_data: AccountData { events: Vec::new() },
    };
    Ok((told, end))
}

/// Tells of a room to which the user is invited.
fn tell_invite<S: Storage>(db: &S, room_id: &str) -> (r: Result<InvitedRoom, ErrorKind>)
    requires
        db@.rooms.contains_key(room_id@),
    ensures
        match r {
            Ok(told) => told@ == invite_state(db@, room_id@),
            Err(_) => db_failed(r) && !db.reliable(),
        },
{
    let mut rest = match db.get_full_state(room_id) {
        Ok(events) => events,
        Err(e) => return Err(e),
    };
    let ghost all = event_views(rest@);
    proof {
        let stored = db@.rooms[room_id@].events;
        crate::storage::lemma_current_is_state(stored);
        assert forall|i: int| 0 <= i < all.len() implies (#[trigger] all[i]).state_key is Some by {
            assert(current_state(stored)[i].pdu.state_key is Some);
        }
    }
    let mut reversed: Vec<StrippedState> = Vec::new();
    while rest.len() > 0
        invariant
            rest@.len() + reversed@.len() == all.len(),
            event_views(rest@) == all.take(rest@.len() as int),
            forall|i: int| 0 <= i < all.len() ==> (#[trigger] all[i]).state_key is Some,
            forall|i: int|
                0 <= i < reversed@.len() ==> (#[trigger] reversed@[i])@ == stripped(
                    all[all.len() - 1 - i],
                ),
        decreases rest@.len(),
    {
        let ghost left = event_views(rest@);
        let event = rest.pop().unwrap();
        proof {
            assert(left.last() == event@);
            assert(all[left.len() - 1] == event@);
            assert(event_views(rest@) =~= all.take(rest@.len() as int));
        }
        reversed.push(
            StrippedState {
                content: event.event_content,
                state_key: event.state_key.unwrap(),
                sender: event.sender,
            },
        );
    }
    let mut events: Vec<StrippedState> = Vec::new();
    while reversed.len() > 0
        invariant
            reversed@.len() + events@.len() == all.len(),
            forall|i: int|
                0 <= i < reversed@.len() ==> (#[trigger] reversed@[i])@ == stripped(
                    all[all.len() - 1 - i],
                ),
            forall|i: int| 0 <= i < events@.len() ==> (#[trigger] events@[i])@ == stripped(all[i]),
        decreases reversed@.len(),
    {
        let event = reversed.pop().unwrap();
        events.push(event);
    }
    assert(stripped_views(events@) =~= invite_state(db@, room_id@));
    Ok(InvitedRoom { invite_state: InviteState { events } })
}

fn after_position(position: usize) -> (r: usize)
    ensures
        r == next_position(position as int),
{
    if position < usize::MAX {
        position + 1
    } else {
        usize::MAX
    }
}

/// What a user is told of their rooms, with the positions up to which the rooms were looked at, and
/// whether anything has happened.
struct Gathered {
    join: Dict<String, JoinedRoom>,
    invite: Dict<String, InvitedRoom>,
    batch: Batch,
    ends: Dict<String, usize>,
    something_happened: bool,
}

/// The positions up to which the rooms that a user has joined were looked at.
pub open spec fn ends_of(s: StorageView, user: Seq<char>, told: Set<Seq<char>>) -> Map<
    Seq<char>,
    usize,
> {
    Map::new(
        |room: Seq<char>| told.contains(room) && stands(s, user, room, Membership::Join),
        |room: Seq<char>| query_end(s.rooms[room].events, news_query(room, 0)) as usize,
    )
}

spec fn gathers<S: Storage>(
    g: Gathered,
    s: StorageView,
    user: Seq<char>,
    batch: BatchView,
    told: Set<Seq<char>>,
    full_state: bool,
    now: u64,
) -> bool {
    &&& tells_rooms::<S>(g.join@, g.invite@, s, user, batch, told, full_state, now)
    &&& g.batch@ == batch_after(s, user, batch, told)
    &&& g.ends@ == ends_of(s, user, told)
    &&& g.something_happened == (exists|room: Seq<char>|
        told.contains(room) && #[trigger] has_news(s, user, batch, room, full_state))
}

/// Takes one more room into what a user is told.
fn gather_one<S: Storage>(
    db: &S,
    user: Ghost<Seq<char>>,
    old_batch: Ghost<BatchView>,
    told: Ghost<Set<Seq<char>>>,
    g: &mut Gathered,
    room_id: &String,
    membership: Membership,
    full_state: bool,
    now: u64,
) -> (r: Result<(), ErrorKind>)
    requires
        stands(db@, user@, room_id@, membership),
        !told@.contains(room_id@),
        gathers::<S>(*old(g), db@, user@, old_batch@, told@, full_state, now),
    ensures
        match r {
            Ok(_) => gathers::<S>(
                *final(g),
                db@,
                user@,
                old_batch@,
                told@.insert(room_id@),
                full_state,
                now,
            ),
            Err(_) => db_failed(r) && !db.reliable(),
        },
{
    let ghost s = db@;
    let ghost room = room_id@;
    let ghost more = told@.insert(room);
    let ghost before = *g;
    match membership {
        Membership::Join => {
            g.batch.invites.remove(room_id);
            let from: usize = match g.batch.rooms.get(room_id) {
                Some(position) => *position,
                None => 0,
            };
            assert(from == unread_from(old_batch@, room));
            let (joined, end) = match tell_room(db, room_id.as_str(), from, full_state, now) {
                Ok(found) => found,
                Err(e) => return Err(e),
            };
            g.batch.rooms.insert(room_id.clone(), after_position(end));
            g.ends.insert(room_id.clone(), end);
            if joined.timeline.events.len() > 0 || joined.state.events.len() > 0 {
                g.something_happened = true;
            }
            assert(has_news(s, user@, old_batch@, room, full_state) == (
            joined.timeline.events@.len() > 0 || joined.state.events@.len() > 0)) by {
                assert(joined@.timeline.len() == joined.timeline.events@.len());
                assert(joined@.state.len() == joined.state.events@.len());
            }
            g.join.insert(room_id.clone(), joined);
        },
        Membership::Invite => {
            if !g.batch.invites.contains(room_id) {
                assert(!old_batch@.invites.contains(room));
                let invited = match tell_invite(db, room_id.as_str()) {
                    Ok(invited) => invited,
                    Err(e) => return Err(e),
                };
                g.invite.insert(room_id.clone(), invited);
                let _new = g.batch.invites.insert(room_id.clone());
            }
        },
        _ => {},
    }
    proof {
        assert(g.batch@.rooms =~= batch_after(s, user@, old_batch@, more).rooms);
        assert(g.batch@.invites =~= batch_after(s, user@, old_batch@, more).invites);
        assert(g.ends@ =~= ends_of(s, user@, more));
        if before.something_happened {
            let other = choose|other: Seq<char>|
                told@.contains(other) && #[trigger] has_news(
                    s,
                    user@,
                    old_batch@,
                    other,
                    full_state,
                );
            assert(more.contains(other) && has_news(s, user@, old_batch@, other, full_state));
        }
        if has_news(s, user@, old_batch@, room, full_state) {
            assert(more.contains(room));
        }
    }
    Ok(())
}

/// Everything that a user is told of their rooms.
fn gather<S: Storage>(
    db: &S,
    user_id: &MatrixId,
    batch: Batch,
    full_state: bool,
    now: u64,
) -> (r: Result<Gathered, ErrorKind>)
    ensures
        match r {
            Ok(g) => gathers::<S>(
                g,
                db@,
                user_id@,
                batch@,
                memberships_in(db@.rooms, user_id@).dom(),
                full_state,
                now,
            ),
            Err(_) => db_failed(r) && !db.reliable(),
        },
{
    let memberships = match db.get_memberships_by_user(user_id) {
        Ok(memberships) => memberships,
        Err(e) => return Err(e),
    };
    let ghost s = db@;
    let ghost user = user_id@;
    let ghost all = memberships_in(s.rooms, user);
    let ghost listing = memberships.listing();
    let ghost old_batch = batch@;
    let ghost mut told: Set<Seq<char>> = Set::empty();
    let mut g = Gathered {
        join: Dict::new(),
        invite: Dict::new(),
        batch,
        ends: Dict::new(),
        something_happened: false,
    };
    proof {
        assert(g.batch@.rooms =~= batch_after(s, user, old_batch, told).rooms);
        assert(g.batch@.invites =~= batch_after(s, user, old_batch, told).invites);
        assert(g.ends@ =~= ends_of(s, user, told));
    }
    let n: usize = memberships.len();
    let mut i: usize = 0;
    while i < n
        invariant
            i <= n == listing.len(),
            s == db@,
            user == user_id@,
            all == memberships_in(s.rooms, user),
            memberships@ == all,
            listing == memberships.listing(),
            distinct_keys(listing),
            forall|room: Seq<char>| #[trigger]
                told.contains(room) <==> exists|j: int|
                    0 <= j < i && (#[trigger] listing[j]).0 == room,
            gathers::<S>(g, s, user, old_batch, told, full_state, now),
        decreases n - i,
    {
        let ghost room = listing[i as int].0;
        let ghost before = told;
        proof {
            if told.contains(room) {
                let j = choose|j: int| 0 <= j < i && (#[trigger] listing[j]).0 == room;
                assert(listing[j].0 == listing[i as int].0);
            }
        }
        let e = memberships.entry(i);
        match gather_one(
            db,
            Ghost(user),
            Ghost(old_batch),
            Ghost(told),
            &mut g,
            e.0,
            *e.1,
            full_state,
            now,
        ) {
            Ok(()) => {},
            Err(e) => return Err(e),
        }
        proof {
            told = told.insert(room);
            assert forall|k: Seq<char>| #[trigger] told.contains(k) <==> exists|j: int|
                0 <= j < i + 1 && (#[trigger] listing[j]).0 == k by {
                if k == room {
                    assert(listing[i as int].0 == k);
                } else {
                    assert(told.contains(k) == before.contains(k));
                }
            }
        }
        i += 1;
    }
    proof {
        assert forall|room: Seq<char>| told.contains(room) == all.dom().contains(room) by {
            if told.contains(room) {
                let j = choose|j: int| 0 <= j < n && (#[trigger] listing[j]).0 == room;
                lemma_map_of_entry(listing, j);
                assert(map_of(listing).contains_key(room));
            }
            if all.dom().contains(room) {
                assert(map_of(listing).contains_key(room));
                let j = choose|j: int| 0 <= j < listing.len() && (#[trigger] listing[j]).0 == room;
                assert(listing[j].0 == room);
            }
        }
        assert(told =~= all.dom());
    }
    Ok(g)
}

/// Whether a question for what has happened was answered as it should be. The answer is given at
/// once where something has happened, or where the user has joined no room.
pub open spec fn syncs<S: Storage>(
    step: SyncStep,
    before: StorageView,
    after: StorageView,
    user: Seq<char>,
    req: SyncRequest,
    next_batch: Seq<char>,
    now: u64,
) -> bool {
    let batch = batch_named(before, text_opt(req.since));
    let told = memberships_in(before.rooms, user).dom();
    let moved = batch_after(before, user, batch, told);
    let happened = exists|room: Seq<char>|
        told.contains(room) && #[trigger] has_news(before, user, batch, room, req.full_state);
    let alone = forall|room: Seq<char>| !#[trigger] stands(before, user, room, Membership::Join);
    match step {
        SyncStep::Done(response) => {
            &&& happened || alone
            &&& is_answer(response, next_batch)
            &&& tells_rooms::<S>(
                rooms_of(response).0,
                rooms_of(response).1,
                before,
                user,
                batch,
                told,
                req.full_state,
                now,
            )
            &&& after == (StorageView {
                batches: before.batches.insert(next_batch, moved),
                ..before
            })
        },
        SyncStep::Wait(waiting) => {
            &&& !happened && !alone
            &&& is_answer(waiting.response, next_batch)
            &&& tells_rooms::<S>(
                rooms_of(waiting.response).0,
                rooms_of(waiting.response).1,
                before,
                user,
                batch,
                told,
                req.full_state,
                now,
            )
            &&& waiting.batch@ == moved
            &&& waiting.ends@ == ends_of(before, user, told)
            &&& waiting.timeout == req.timeout
            &&& after == before
        },
    }
}

/// Answers what has happened in the rooms of a user since they last asked, or finds that the answer
/// has to wait. The next batch is named by a number.
pub fn sync_with<S: Storage>(
    state: &mut ServerState<S>,
    token: AccessToken,
    req: SyncRequest,
    number: u64,
    now: u64,
) -> (r: Result<SyncStep, ErrorKind>)
    requires
        old(state).wf(),
    ensures
        final(state).config == old(state).config,
        final(state).db.reliable() == old(state).db.reliable(),
        !db_failed(r) ==> final(state).wf(),
        match r {
            Ok(step) => caller_of(old(state).db@, token@) is Ok && syncs::<S>(
                step,
                old(state).db@,
                final(state).db@,
                mxid_of(caller_of(old(state).db@, token@)->Ok_0, old(state).config.domain@),
                req,
                hex(number as nat, false),
                now,
            ),
            Err(e) => if db_failed(r) {
                !old(state).db.reliable()
            } else {
                caller_of(old(state).db@, token@) == Err::<Seq<char>, _>(e@) && final(state).db@
                    == old(state).db@
            },
        },
{
    let user_id = match state.identify(token.0) {
        Ok((_, user_id)) => user_id,
        Err(e) => return Err(e),
    };
    let ghost before = state.db@;
    let ghost user = user_id@;
    let since = match &req.since {
        Some(id) => id.as_str(),
        None => "empty",
    };
    let batch = match state.db.get_batch(since) {
        Ok(Some(batch)) => batch,
        Ok(None) => Batch::default(),
        Err(e) => return Err(e),
    };
    let ghost old_batch = batch@;
    assert(old_batch == batch_named(before, text_opt(req.since)));
    let next_batch = to_hex(number, false);
    let g = match gather(&state.db, &user_id, batch, req.full_state, now) {
        Ok(g) => g,
        Err(e) => return Err(e),
    };
    let ghost told = memberships_in(before.rooms, user).dom();
    let ghost shown = g;
    let joins: usize = g.join.len();
    let invites: usize = g.invite.len();
    let rooms = if joins > 0 || invites > 0 {
        proof {
            lemma_not_empty(g.join.listing());
            lemma_not_empty(g.invite.listing());
        }
        Some(Rooms { join: g.join, invite: g.invite, leave: Dict::new() })
    } else {
        proof {
            assert(g.join@ =~= Map::<Seq<char>, JoinedView>::empty());
            assert(g.invite@ =~= Map::<Seq<char>, Seq<StrippedView>>::empty());
        }
        None
    };
    let response = SyncResponse {
        next_batch: next_batch.clone(),
        rooms,
        presence: None,
        account_data: AccountData { events: Vec::new() },
    };
    assert(is_answer(response, next_batch@));
    assert(rooms_of(response).0 == shown.join@ && rooms_of(response).1 == shown.invite@);
    let waits = g.ends.len() > 0;
    proof {
        if waits {
            let room = shown.ends.listing()[0].0;
            lemma_map_of_entry(shown.ends.listing(), 0);
            assert(shown.ends@.contains_key(room));
            assert(stands(before, user, room, Membership::Join));
        } else {
            assert forall|room: Seq<char>| !#[trigger] stands(
                before,
                user,
                room,
                Membership::Join,
            ) by {
                if stands(before, user, room, Membership::Join) {
                    assert(told.contains(room));
                    assert(shown.ends@.contains_key(room));
                }
            }
        }
    }
    if g.something_happened || !waits {
        match state.db.set_batch(next_batch.as_str(), g.batch) {
            Ok(()) => Ok(SyncStep::Done(response)),
            Err(e) => Err(e),
        }
    } else {
        Ok(
            SyncStep::Wait(
                Waiting { response, batch: g.batch, ends: g.ends, timeout: req.timeout },
            ),
        )
    }
}

proof fn lemma_not_empty<A, B>(listing: Seq<(A, B)>)
    requires
        distinct_keys(listing),
    ensures
        listing.len() > 0 ==> map_of(listing) != Map::<A, B>::empty(),
{
    if listing.len() > 0 {
        lemma_map_of_entry(listing, 0);
        assert(map_of(listing).contains_key(listing[0].0));
    }
}

/// Answers what has happened in the rooms of a user since they last asked, or finds that the answer
/// has to wait.
pub fn sync<S: Storage>(
    state: &mut ServerState<S>,
    token: AccessToken,
    req: SyncRequest,
    now: u64,
) -> (r: Result<SyncStep, ErrorKind>)
    requires
        old(state).wf(),
    ensures
        final(state).config == old(state).config,
        final(state).db.reliable() == old(state).db.reliable(),
        !db_failed(r) ==> final(state).wf(),
        match r {
            Ok(step) => caller_of(old(state).db@, token@) is Ok && exists|number: u64|
                syncs::<S>(
                    step,
                    old(state).db@,
                    final(state).db@,
                    mxid_of(caller_of(old(state).db@, token@)->Ok_0, old(state).config.domain@),
                    req,
                    #[trigger] hex(number as nat, false),
                    now,
                ),
            Err(e) => if db_failed(r) {
                !old(state).db.reliable()
            } else {
                caller_of(old(state).db@, token@) == Err::<Seq<char>, _>(e@) && final(state).db@
                    == old(state).db@
            },
        },
{
    let number: u64 = random_u64();
    sync_with(state, token, req, number, now)
}

/// Whether an answer that has waited is given as it should be: as it is where nothing has happened,
/// and with the news of the room in which something has.
pub open spec fn resumes<S: Storage>(
    response: SyncResponse,
    before: StorageView,
    after: StorageView,
    waiting: Waiting,
    room: Option<Seq<char>>,
    now: u64,
) -> bool {
    let next_batch = waiting.response.next_batch@;
    match room {
        None => response == waiting.response && after == (StorageView {
            batches: before.batches.insert(next_batch, waiting.batch@),
            ..before
        }),
        Some(id) => {
            &&& response.next_batch@ == next_batch
            &&& response.rooms is Some
            &&& response.presence == waiting.response.presence
            &&& response.account_data == waiting.response.account_data
            &&& rooms_of(response).0.contains_key(id)
            &&& tells_room::<S>(
                rooms_of(response).0[id],
                before,
                id,
                waiting.ends@[id],
                false,
                now,
            )
            &&& rooms_of(response).0.remove(id) == rooms_of(waiting.response).0.remove(id)
            &&& rooms_of(response).1 == rooms_of(waiting.response).1
            &&& left_rooms(response) == left_rooms(waiting.response)
            &&& after == (StorageView {
                batches: before.batches.insert(
                    next_batch,
                    BatchView {
                        rooms: waiting.batch@.rooms.insert(id, read_up_to(before, id)),
                        ..waiting.batch@
                    },
                ),
                ..before
            })
        },
    }
}

/// Gives an answer that has waited, once something has happened in a room, or once the time is up.
pub fn resume<S: Storage>(
    state: &mut ServerState<S>,
    waiting: Waiting,
    room: Option<String>,
    now: u64,
) -> (r: Result<SyncResponse, ErrorKind>)
    requires
        old(state).wf(),
        room is Some ==> waiting.ends@.contains_key(room->0@),
    ensures
        final(state).config == old(state).config,
        final(state).db.reliable() == old(state).db.reliable(),
        !db_failed(r) ==> final(state).wf(),
        match r {
            Ok(response) => (room is Some ==> old(state).db@.rooms.contains_key(room->0@))
                && resumes::<S>(
                response,
                old(state).db@,
                final(state).db@,
                waiting,
                text_opt(room),
                now,
            ),
            Err(e) => if db_failed(r) {
                !old(state).db.reliable()
            } else {
                e@ == ErrorView::RoomNotFound && room is Some && !old(
                    state,
                ).db@.rooms.contains_key(room->0@) && final(state).db@ == old(state).db@
            },
        },
{
    let mut response = waiting.response;
    let mut batch = waiting.batch;
    match room {
        None => {},
        Some(id) => {
            let from: usize = *waiting.ends.get(&id).unwrap();
            let (told, end) = match tell_room(&state.db, id.as_str(), from, false, now) {
                Ok(found) => found,
                Err(e) => return Err(e),
            };
            batch.rooms.insert(id.clone(), after_position(end));
            let mut rooms = match response.rooms {
                Some(rooms) => rooms,
                None => Rooms { join: Dict::new(), invite: Dict::new(), leave: Dict::new() },
            };
            let ghost shown = rooms.join@;
            rooms.join.insert(id, told);
            assert(shown.insert(room->0@, told@).remove(room->0@) =~= shown.remove(room->0@));
            response.rooms = Some(rooms);
        },
    }
    match state.db.set_batch(response.next_batch.as_str(), batch) {
        Ok(()) => Ok(response),
        Err(e) => Err(e),
    }
}

/// Once a user has been told, they are told nothing twice: the positions that are remembered for the
/// rooms that they have joined lie behind all events that there are.
pub proof fn law_told_once(
    s: StorageView,
    user: Seq<char>,
    batch: BatchView,
    room: Seq<char>,
)
    requires
        stands(s, user, room, Membership::Join),
        0 < s.rooms[room].events.len() <= usize::MAX,
    ensures
        ({
            let moved = batch_after(s, user, batch, memberships_in(s.rooms, user).dom());
            &&& unread_from(moved, room) == s.rooms[room].events.len()
            &&& news(s, room, unread_from(moved, room)).len() == 0
        }),
{
}

/// An answer that has waited tells the last event that there was when the wait began, and all that
/// have come after it.
pub proof fn law_waited_told_rest<S: Storage>(
    earlier: StorageView,
    user: Seq<char>,
    told: Set<Seq<char>>,
    response: SyncResponse,
    before: StorageView,
    after: StorageView,
    waiting: Waiting,
    room: Seq<char>,
    now: u64,
)
    requires
        waiting.ends@ == ends_of(earlier, user, told),
        waiting.ends@.contains_key(room),
        0 < earlier.rooms[room].events.len() <= usize::MAX,
        earlier.rooms[room].events.is_prefix_of(before.rooms[room].events),
        resumes::<S>(response, before, after, waiting, Some(room), now),
    ensures
        rooms_of(response).0[room].timeline == client_events(
            before.rooms[room].events.skip(earlier.rooms[room].events.len() - 1),
        ),
{
    let events = before.rooms[room].events;
    let from = earlier.rooms[room].events.len() - 1;
    let rest = events.subrange(from, events.len() as int);
    assert(rest =~= events.skip(from));
    lemma_all_match(rest, room, from as usize);
}

/// Once an answer that has waited is given, nothing of its room is told twice: the position that is
/// remembered lies behind all events that there are.
pub proof fn law_waited_told_once<S: Storage>(
    response: SyncResponse,
    before: StorageView,
    after: StorageView,
    waiting: Waiting,
    room: Seq<char>,
    now: u64,
)
    requires
        0 < before.rooms[room].events.len() <= usize::MAX,
        resumes::<S>(response, before, after, waiting, Some(room), now),
    ensures
        ({
            let moved = after.batches[waiting.response.next_batch@];
            &&& unread_from(moved, room) == after.rooms[room].events.len()
            &&& news(after, room, unread_from(moved, room)).len() == 0
        }),
{
}

/// Someone who asks about a room for the first time is told all that has happened there.
pub proof fn law_first_told_all(s: StorageView, room: Seq<char>)
    requires
        s.rooms.contains_key(room),
        s.rooms[room].events.len() > 0,
    ensures
        unread_from(empty_batch(), room) == 0,
        news(s, room, 0) == client_events(s.rooms[room].events),
{
    let events = s.rooms[room].events;
    lemma_all_match(events, room, 0);
    assert(events.subrange(0, events.len() as int) =~= events);
}

proof fn lemma_all_match(
    events: Seq<crate::events::pdu::StoredView>,
    room: Seq<char>,
    from: usize,
)
    ensures
        crate::storage::matching(events, news_query(room, from)) == events,
    decreases events.len(),
{
    if events.len() > 0 {
        lemma_all_match(events.drop_last(), room, from);
        assert(events.drop_last().push(events.last()) =~= events);
    }
}

} // verus!
