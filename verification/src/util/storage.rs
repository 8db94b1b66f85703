//! How events get into storage.
use crate::dict::Duplicate;
use crate::error::{ErrorKind, ErrorView};
use crate::events::pdu::{StoredPdu, StoredView};
use crate::events::room::Membership;
use crate::events::room_version::v4::{UnhashedPdu, UnhashedView};
use crate::events::room_version::VersionedPdu;
use crate::events::{json_opt, ContentView, Event, EventContent, EventView};
use crate::json::{Json, JsonValue};
use crate::outside::{hash_accepts, now_millis};
use crate::state::growth::{
    at_home, extends, law_rooms_grow, law_state_kept, law_stay_home,
};
use crate::state::resolver::StateResolver;
use crate::state::rules::{resolved, state_after};
use crate::state::{empty_state, State, StateView};
use crate::storage::{
    add_all, add_one, appended, db_failed, find_pdu, ids_at_depth, max_depth, new_user, stored_views,
    RoomView, Storage, StorageView,
};
use crate::text::{same, text_opt, texts};
use crate::util::mxid::{domain_of, MatrixId};
use crate::validate::auth::{auth_rules, try_auth_check, AuthStatus};
use vstd::prelude::*;
use vstd::utf8::encode_utf8;

verus! {

/// Why an event cannot be added to a room.
#[derive(Debug)]
pub enum AddEventError {
    /// A user tried to send an event to a room which they are not in.
    UserNotInRoom,
    /// A user tried to join a room from which they are banned.
    UserBanned,
    /// A user tried to join a private room to which they were not invited.
    UserNotInvited,
    /// A user tried to send an event to a room which does not exist.
    RoomNotFound,
    /// The user does not have the required power level to send this event.
    InsufficientPowerLevel,
    /// The event to be added was invalid.
    InvalidEvent(String),
}

/// What an `AddEventError` says.
pub enum AddEventView {
    UserNotInRoom,
    UserBanned,
    UserNotInvited,
    RoomNotFound,
    InsufficientPowerLevel,
    InvalidEvent(Seq<char>),
}

impl View for AddEventError {
    type V = AddEventView;

    open spec fn view(&self) -> AddEventView {
        match self {
            AddEventError::UserNotInRoom => AddEventView::UserNotInRoom,
            AddEventError::UserBanned => AddEventView::UserBanned,
            AddEventError::UserNotInvited => AddEventView::UserNotInvited,
            AddEventError::RoomNotFound => AddEventView::RoomNotFound,
            AddEventError::InsufficientPowerLevel => AddEventView::InsufficientPowerLevel,
            AddEventError::InvalidEvent(s) => AddEventView::InvalidEvent(s@),
        }
    }
}

/// The words for an `AddEventError`.
pub open spec fn add_event_words(e: AddEventView) -> Seq<char> {
    match e {
        AddEventView::UserNotInRoom => "A user tried to send an event to a room which they are not in."@,
        AddEventView::UserBanned => "A user tried to join a room from which they are banned."@,
        AddEventView::UserNotInvited => "A user tried to join a private room to which they were not invited."@,
        AddEventView::RoomNotFound => "A user tried to send an event to a room which does not exist."@,
        AddEventView::InsufficientPowerLevel => "The user does not have the required power level to send this event."@,
        AddEventView::InvalidEvent(_) => "The event to be added was invalid."@,
    }
}

impl AddEventError {
    /// The words for the error.
    pub fn message(&self) -> (words: String)
        ensures
            words@ == add_event_words(self@),
    {
        match self {
            AddEventError::UserNotInRoom => "A user tried to send an event to a room which they are not in.".to_owned(),
            AddEventError::UserBanned => "A user tried to join a room from which they are banned.".to_owned(),
            AddEventError::UserNotInvited => "A user tried to join a private room to which they were not invited.".to_owned(),
            AddEventError::RoomNotFound => "A user tried to send an event to a room which does not exist.".to_owned(),
            AddEventError::InsufficientPowerLevel => "The user does not have the required power level to send this event.".to_owned(),
            AddEventError::InvalidEvent(_) => "The event to be added was invalid.".to_owned(),
        }
    }
}

/// The level of a sender by the events that an event cites: the first power levels event decides,
/// and where there is none, whether the sender created the room. Nothing is known where an event
/// before the decision is missing, or where no create event is cited either.
pub open spec fn level_by(
    rooms: Map<Seq<char>, RoomView>,
    room_id: Seq<char>,
    sender: Seq<char>,
    ids: Seq<Seq<char>>,
    creator: Option<Seq<char>>,
) -> Option<u32>
    decreases ids.len(),
{
    if ids.len() == 0 {
        match creator {
            Some(c) => Some(
                if sender == c {
                    100u32
                } else {
                    0u32
                },
            ),
            None => None,
        }
    } else {
        match find_pdu(rooms, room_id, ids[0]) {
            None => None,
            Some(e) => match e.pdu.content {
                ContentView::PowerLevels(levels) => Some(levels.user_level(sender)),
                ContentView::Create(create) => level_by(
                    rooms,
                    room_id,
                    sender,
                    ids.drop_first(),
                    Some(create.creator),
                ),
                _ => level_by(rooms, room_id, sender, ids.drop_first(), creator),
            },
        }
    }
}

/// The level of the sender of an event.
pub open spec fn sender_level(
    rooms: Map<Seq<char>, RoomView>,
    room_id: Seq<char>,
    event_id: Seq<char>,
) -> Option<u32> {
    match find_pdu(rooms, room_id, event_id) {
        None => None,
        Some(e) => level_by(rooms, room_id, e.pdu.sender, e.pdu.auth_events, None),
    }
}

/// The level of the sender of an event; `None` where an event that it rests on is missing.
pub fn try_sender_power_level<S: Storage>(db: &S, room_id: &str, event_id: &str) -> (r: Result<
    Option<u32>,
    ErrorKind,
>)
    ensures
        match r {
            Ok(level) => level == sender_level(db@.rooms, room_id@, event_id@),
            Err(_) => db_failed(r) && !db.reliable(),
        },
{
    let event = match db.get_pdu(room_id, event_id) {
        Ok(Some(event)) => event,
        Ok(None) => return Ok(None),
        Err(e) => return Err(e),
    };
    let ghost sender = event@.pdu.sender;
    let ids = event.auth_events();
    let ghost all = texts(ids@);
    let mut creator: Option<MatrixId> = None;
    let mut i: usize = 0;
    assert(all.skip(0) =~= all);
    while i < ids.len()
        invariant
            i <= ids@.len(),
            all == texts(ids@),
            sender == event@.pdu.sender,
            sender_level(db@.rooms, room_id@, event_id@) == level_by(
                db@.rooms,
                room_id@,
                sender,
                all.skip(i as int),
                mxid_opt(creator),
            ),
        decreases ids@.len() - i,
    {
        proof {
            assert(all.skip(i as int)[0] == ids@[i as int]@);
            assert(all.skip(i as int).drop_first() =~= all.skip(i + 1));
        }
        match db.get_pdu(room_id, ids[i].as_str()) {
            Ok(Some(auth_event)) => {
                match auth_event.event_content() {
                    EventContent::PowerLevels(levels) => {
                        return Ok(Some(levels.get_user_level(event.sender())));
                    },
                    EventContent::Create(create) => {
                        creator = Some(create.creator.duplicate());
                    },
                    _ => {},
                }
            },
            Ok(None) => return Ok(None),
            Err(e) => return Err(e),
        }
        i += 1;
    }
    assert(all.skip(i as int).len() == 0);
    // at this point there is no power levels event
    match creator {
        Some(c) => if same(event.sender().as_str(), c.as_str()) {
            Ok(Some(100))
        } else {
            Ok(Some(0))
        },
        None => Ok(None),
    }
}

/// An event that is to be added to a room.
pub struct NewEvent {
    pub event_content: EventContent,
    pub sender: MatrixId,
    pub state_key: Option<String>,
    pub redacts: Option<String>,
    pub unsigned: Option<JsonValue>,
}

/// What a `NewEvent` says.
#[verifier::ext_equal]
pub struct NewEventView {
    pub content: ContentView,
    pub sender: Seq<char>,
    pub state_key: Option<Seq<char>>,
    pub redacts: Option<Seq<char>>,
    pub unsigned: Option<Json>,
}

impl View for NewEvent {
    type V = NewEventView;

    open spec fn view(&self) -> NewEventView {
        NewEventView {
            content: self.event_content@,
            sender: self.sender@,
            state_key: text_opt(self.state_key),
            redacts: text_opt(self.redacts),
            unsigned: json_opt(self.unsigned),
        }
    }
}

/// The event that a state has for a type and a key, if any, as a list.
pub open spec fn state_id(state: StateView, ty: Seq<char>, key: Seq<char>) -> Seq<Seq<char>> {
    if state.map.contains_key((ty, key)) {
        seq![state.map[(ty, key)]]
    } else {
        Seq::empty()
    }
}

/// The events that a new event cites as authority. There are none where the state has no create
/// event, or where a membership has no target.
pub open spec fn cited_ids(event: NewEventView, state: StateView) -> Option<Seq<Seq<char>>> {
    if !state.map.contains_key(("m.room.create"@, ""@)) {
        None
    } else {
        let first = seq![state.map[("m.room.create"@, ""@)]] + state_id(
            state,
            "m.room.power_levels"@,
            ""@,
        ) + state_id(state, "m.room.member"@, event.sender);
        match event.content {
            ContentView::Member(m) => match event.state_key {
                Some(target) => {
                    let more = first + state_id(state, "m.room.member"@, target);
                    Some(
                        if m.membership == Membership::Join || m.membership == Membership::Invite {
                            more + state_id(state, "m.room.join_rules"@, ""@)
                        } else {
                            more
                        },
                    )
                },
                None => None,
            },
            _ => Some(first),
        }
    }
}

fn push_state_id(ids: &mut Vec<String>, state: &State, key: (&str, &str))
    ensures
        texts(final(ids)@) == texts(old(ids)@) + state_id(state@, key.0@, key.1@),
{
    let ghost before = texts(ids@);
    match state.get(key) {
        Some(id) => {
            ids.push(id.to_owned());
            assert(texts(ids@) =~= before + state_id(state@, key.0@, key.1@));
        },
        None => {
            assert(texts(ids@) =~= before + state_id(state@, key.0@, key.1@));
        },
    }
}

/// The events that a new event cites as authority; `None` where the state has no create event, or
/// where a membership has no target.
pub fn try_calc_auth_events(event: &NewEvent, state: &State) -> (r: Option<Vec<String>>)
    ensures
        match r {
            Some(ids) => cited_ids(event@, state@) == Some(texts(ids@)),
            None => cited_ids(event@, state@) is None,
        },
{
    let mut auth_events: Vec<String> = Vec::new();
    match state.get(("m.room.create", "")) {
        Some(id) => auth_events.push(id.to_owned()),
        None => return None,
    }
    assert(texts(auth_events@) =~= seq![state@.map[("m.room.create"@, ""@)]]);
    push_state_id(&mut auth_events, state, ("m.room.power_levels", ""));
    push_state_id(&mut auth_events, state, ("m.room.member", event.sender.as_str()));
    match &event.event_content {
        EventContent::Member(content) => {
            match &event.state_key {
                Some(target) => push_state_id(
                    &mut auth_events,
                    state,
                    ("m.room.member", target.as_str()),
                ),
                None => return None,
            }
            if content.membership == Membership::Join || content.membership == Membership::Invite {
                push_state_id(&mut auth_events, state, ("m.room.join_rules", ""));
            }
        },
        _ => {},
    }
    Some(auth_events)
}

/// The events that a new event cites as authority.
pub fn calc_auth_events(event: &NewEvent, state: &State) -> (ids: Vec<String>)
    requires
        cited_ids(event@, state@) is Some,
    ensures
        cited_ids(event@, state@) == Some(texts(ids@)),
{
    try_calc_auth_events(event, state).unwrap()
}

/// The depth after another, within what a number can hold.
pub open spec fn deeper(depth: i64) -> i64 {
    if depth < i64::MAX {
        (depth + 1) as i64
    } else {
        depth
    }
}

/// A new event made ready for a place in its room.
pub open spec fn placed(
    room: Seq<char>,
    event: NewEventView,
    now: i64,
    prev_events: Seq<Seq<char>>,
    depth: i64,
    auth_events: Seq<Seq<char>>,
) -> UnhashedView {
    UnhashedView {
        content: event.content,
        room_id: room,
        sender: event.sender,
        state_key: event.state_key,
        unsigned: event.unsigned,
        redacts: event.redacts,
        origin: domain_of(event.sender),
        origin_server_ts: now,
        prev_events,
        depth,
        auth_events,
    }
}

/// What is stored of an event, once the rules have been asked whether it is allowed. Nothing is
/// where the event cannot be hashed, or where the rules cannot be asked.
pub open spec fn judged(
    rooms: Map<Seq<char>, RoomView>,
    unhashed: UnhashedView,
    state: StateView,
) -> Option<StoredView> {
    match unhashed.finalized() {
        None => None,
        Some(pdu) => match auth_rules(rooms, pdu, state) {
            None => None,
            Some(status) => {
                let stored = StoredView { pdu, passed: status == AuthStatus::Pass };
                if stored.storable() {
                    Some(stored)
                } else {
                    None
                }
            },
        },
    }
}

/// What is stored of a new event in a room: it follows the deepest events of the room, and is held
/// against the state after them. Nothing is of a create event, where that state is unknown, or where
/// the rules cannot be asked.
pub open spec fn drafted(
    rooms: Map<Seq<char>, RoomView>,
    room: Seq<char>,
    event: NewEventView,
    now: i64,
) -> Option<StoredView> {
    let depth = max_depth(rooms[room].events);
    let prev_events = ids_at_depth(rooms[room].events, depth);
    if event.content is Create {
        None
    } else {
        match resolved(rooms, room, prev_events) {
            None => None,
            Some(state) => match cited_ids(event, state) {
                None => None,
                Some(auth_events) => judged(
                    rooms,
                    placed(room, event, now, prev_events, deeper(depth), auth_events),
                    state,
                ),
            },
        }
    }
}

/// What is stored of the event that creates a room.
pub open spec fn drafted_first(
    rooms: Map<Seq<char>, RoomView>,
    room: Seq<char>,
    event: NewEventView,
    now: i64,
) -> Option<StoredView> {
    if event.content is Create {
        judged(
            rooms,
            placed(room, event, now, Seq::empty(), 0, Seq::empty()),
            empty_state(room),
        )
    } else {
        None
    }
}

/// Adding a list of one event is adding that event.
pub proof fn lemma_add_single(rooms: Map<Seq<char>, RoomView>, e: StoredView)
    ensures
        add_all(rooms, seq![e]) == add_one(rooms, e),
{
    reveal_with_fuel(add_all, 2);
    assert(seq![e].drop_last() =~= Seq::<StoredView>::empty());
}

/// What a resolver remembers holds while rooms grow.
pub proof fn lemma_still_valid(
    resolver: &StateResolver,
    before: Map<Seq<char>, RoomView>,
    after: Map<Seq<char>, RoomView>,
)
    requires
        resolver.valid(before),
        at_home(before),
        extends(before, after),
    ensures
        resolver.valid(after),
{
    assert forall|id: Seq<char>| #[trigger] resolver.remembered().contains_key(id) implies resolved(
        after,
        resolver.remembered()[id].room_id,
        seq![id],
    ) == Some(resolver.remembered()[id]) by {
        law_state_kept(before, after, resolver.remembered()[id].room_id, seq![id]);
    }
}

fn judge<S: Storage>(db: &S, unhashed: UnhashedPdu, state: &State) -> (r: Result<
    Option<StoredPdu>,
    ErrorKind,
>)
    ensures
        match r {
            Ok(Some(stored)) => judged(db@.rooms, unhashed@, state@) == Some(stored@),
            Ok(None) => judged(db@.rooms, unhashed@, state@) is None,
            Err(_) => db_failed(r) && !db.reliable(),
        },
{
    let pdu = match unhashed.try_finalize() {
        Some(pdu) => VersionedPdu::V4(pdu),
        None => return Ok(None),
    };
    match try_auth_check(db, &pdu, state) {
        Ok(Some(auth_status)) => Ok(StoredPdu::new(pdu, auth_status)),
        Ok(None) => Ok(None),
        Err(e) => Err(e),
    }
}

fn place(
    room_id: &str,
    event: NewEvent,
    now: i64,
    prev_events: Vec<String>,
    depth: i64,
    auth_events: Vec<String>,
) -> (r: UnhashedPdu)
    ensures
        r@ == placed(room_id@, event@, now, texts(prev_events@), depth, texts(auth_events@)),
{
    let origin = event.sender.domain().to_owned();
    UnhashedPdu {
        event_content: event.event_content,
        room_id: room_id.to_owned(),
        sender: event.sender,
        state_key: event.state_key,
        unsigned: event.unsigned,
        redacts: event.redacts,
        origin,
        origin_server_ts: now,
        prev_events,
        depth,
        auth_events,
    }
}

/// Adds an event to a room at a given time; `None` where nothing can be stored of it.
pub fn add_event_at<S: Storage>(
    db: &mut S,
    room_id: &str,
    event: NewEvent,
    state_resolver: &mut StateResolver,
    now: i64,
) -> (r: Result<Option<String>, ErrorKind>)
    requires
        at_home(old(db)@.rooms),
        old(state_resolver).valid(old(db)@.rooms),
    ensures
        final(db).reliable() == old(db).reliable(),
        !db_failed(r) ==> at_home(final(db)@.rooms) && final(state_resolver).valid(
            final(db)@.rooms,
        ),
        match r {
            Ok(Some(id)) => {
                let stored = drafted(old(db)@.rooms, room_id@, event@, now);
                &&& old(db)@.rooms.contains_key(room_id@)
                &&& stored is Some && stored->0.id() == id@
                &&& add_one(old(db)@.rooms, stored->0) is Some
                &&& final(db)@ == (StorageView {
                    rooms: add_one(old(db)@.rooms, stored->0)->0,
                    ..old(db)@
                })
            },
            Ok(None) => old(db)@.rooms.contains_key(room_id@) && drafted(
                old(db)@.rooms,
                room_id@,
                event@,
                now,
            ) is None && final(db)@ == old(db)@,
            Err(e) => if db_failed(r) {
                !old(db).reliable()
            } else {
                e@ == ErrorView::RoomNotFound && !old(db)@.rooms.contains_key(room_id@)
                    && final(db)@ == old(db)@
            },
        },
{
    let (prev_events, depth) = match db.get_prev_events(room_id) {
        Ok(found) => found,
        Err(e) => return Err(e),
    };
    match event.event_content {
        EventContent::Create(_) => return Ok(None),
        _ => {},
    }
    let state = match state_resolver.try_resolve(db, room_id, &prev_events) {
        Ok(Some(state)) => state,
        Ok(None) => return Ok(None),
        Err(e) => return Err(e),
    };
    let auth_events = match try_calc_auth_events(&event, &state) {
        Some(ids) => ids,
        None => return Ok(None),
    };
    let next: i64 = if depth < i64::MAX {
        depth + 1
    } else {
        depth
    };
    let unhashed = place(room_id, event, now, prev_events, next, auth_events);
    let stored = match judge(db, unhashed, &state) {
        Ok(Some(stored)) => stored,
        Ok(None) => return Ok(None),
        Err(e) => return Err(e),
    };
    let event_id = stored.event_id().to_owned();
    let ghost e = stored@;
    let ghost before = db@.rooms;
    let mut pdus: Vec<StoredPdu> = Vec::new();
    pdus.push(stored);
    proof {
        assert(stored_views(pdus@) =~= seq![e]);
        lemma_add_single(before, e);
        law_rooms_grow(before, e);
        law_stay_home(before, e);
        lemma_still_valid(state_resolver, before, add_one(before, e)->0);
        assert(stored_views(pdus@).take(1) =~= seq![e]);
    }
    match db.add_pdus(&pdus) {
        Ok(_) => Ok(Some(event_id)),
        Err(error) => Err(error),
    }
}

/// Creates a room with its first event at a given time; `None` where nothing can be stored of it. A
/// room that was there starts afresh.
pub fn start_room_at<S: Storage>(
    db: &mut S,
    room_id: &str,
    event: NewEvent,
    state_resolver: &mut StateResolver,
    now: i64,
) -> (r: Result<Option<String>, ErrorKind>)
    requires
        at_home(old(db)@.rooms),
        old(state_resolver).valid(old(db)@.rooms),
    ensures
        final(db).reliable() == old(db).reliable(),
        !db_failed(r) ==> at_home(final(db)@.rooms) && final(state_resolver).valid(
            final(db)@.rooms,
        ),
        match r {
            Ok(Some(id)) => {
                let stored = drafted_first(old(db)@.rooms, room_id@, event@, now);
                &&& stored is Some && stored->0.id() == id@
                &&& add_one(old(db)@.rooms, stored->0) is Some
                &&& final(db)@ == (StorageView {
                    rooms: add_one(old(db)@.rooms, stored->0)->0,
                    ..old(db)@
                })
            },
            Ok(None) => drafted_first(old(db)@.rooms, room_id@, event@, now) is None && final(db)@
                == old(db)@,
            Err(_) => db_failed(r) && !old(db).reliable(),
        },
{
    match event.event_content {
        EventContent::Create(_) => {},
        _ => return Ok(None),
    }
    let state = State::new(room_id);
    let none: Vec<String> = Vec::new();
    assert(texts(none@) =~= Seq::<Seq<char>>::empty());
    let unhashed = place(room_id, event, now, none, 0, Vec::new());
    let stored = match judge(db, unhashed, &state) {
        Ok(Some(stored)) => stored,
        Ok(None) => return Ok(None),
        Err(e) => return Err(e),
    };
    let event_id = stored.event_id().to_owned();
    let ghost e = stored@;
    let ghost before = db@.rooms;
    let mut pdus: Vec<StoredPdu> = Vec::new();
    pdus.push(stored);
    proof {
        assert(stored_views(pdus@) =~= seq![e]);
        lemma_add_single(before, e);
        law_stay_home(before, e);
        assert(stored_views(pdus@).take(1) =~= seq![e]);
    }
    state_resolver.forget();
    match db.add_pdus(&pdus) {
        Ok(_) => Ok(Some(event_id)),
        Err(error) => Err(error),
    }
}

/// An event that was added is the latest of its room: it is found there, it lies deeper than all
/// others, and the next event follows it alone.
pub proof fn law_added_is_latest(
    rooms: Map<Seq<char>, RoomView>,
    room: Seq<char>,
    event: NewEventView,
    now: i64,
)
    requires
        rooms.contains_key(room),
        drafted(rooms, room, event, now) is Some,
        max_depth(rooms[room].events) < i64::MAX,
    ensures
        ({
            let e = drafted(rooms, room, event, now)->0;
            let after = add_one(rooms, e)->0;
            &&& after[room].events == rooms[room].events.push(e)
            &&& max_depth(after[room].events) == e.pdu.depth
            &&& rooms[room].events.len() > 0 ==> ids_at_depth(after[room].events, e.pdu.depth)
                == seq![e.id()]
            &&& find_pdu(after, room, e.id()) is Some
        }),
{
    let e = drafted(rooms, room, event, now)->0;
    let events = rooms[room].events;
    let after = events.push(e);
    assert(after.drop_last() =~= events);
    assert(after.last() == e);
    crate::state::growth::lemma_found_after_push(events, e, e.id());
    crate::storage::sled::lemma_not_deeper(events);
    if events.len() == 0 {
        assert(after[0] == e);
    } else {
        crate::storage::sled::lemma_none_at(events, e.pdu.depth);
        assert(ids_at_depth(after, e.pdu.depth) =~= seq![e.id()]);
    }
}

/// The state after an event that was added is the state before it, with the event in it where it is
/// a state event that was allowed.
pub proof fn law_added_changes_state(
    rooms: Map<Seq<char>, RoomView>,
    room: Seq<char>,
    event: NewEventView,
    now: i64,
)
    requires
        rooms.contains_key(room),
        at_home(rooms),
        drafted(rooms, room, event, now) is Some,
        find_pdu(rooms, room, drafted(rooms, room, event, now)->0.id()) is None,
    ensures
        ({
            let e = drafted(rooms, room, event, now)->0;
            let before = resolved(
                rooms,
                room,
                ids_at_depth(rooms[room].events, max_depth(rooms[room].events)),
            );
            &&& before is Some
            &&& resolved(add_one(rooms, e)->0, room, seq![e.id()]) == Some(
                state_after(before->0, e),
            )
        }),
{
    let e = drafted(rooms, room, event, now)->0;
    let after = add_one(rooms, e)->0;
    let prev = ids_at_depth(rooms[room].events, max_depth(rooms[room].events));
    law_rooms_grow(rooms, e);
    law_state_kept(rooms, after, room, prev);
    crate::state::growth::lemma_found_after_push(rooms[room].events, e, e.id());
    crate::state::rules::law_resolved_one(after, room, e.id());
}

/// What is stored of an event that is not held against the rules: it follows the deepest events of its
/// room, and counts as allowed. Nothing is of one that names no room, at the end of the depths, or where
/// the event cannot be hashed.
pub open spec fn unchecked(
    rooms: Map<Seq<char>, RoomView>,
    event: EventView,
    auth_events: Seq<Seq<char>>,
    now: i64,
) -> Option<StoredView> {
    let room = event.room_id->0;
    let depth = max_depth(rooms[room].events);
    let prev_events = ids_at_depth(rooms[room].events, depth);
    let new_event = NewEventView {
        content: event.content,
        sender: event.sender,
        state_key: event.state_key,
        redacts: event.redacts,
        unsigned: event.unsigned,
    };
    if event.room_id is None || depth == i64::MAX {
        None
    } else {
        match placed(room, new_event, now, prev_events, deeper(depth), auth_events).finalized() {
            Some(pdu) => {
                let stored = StoredView { pdu, passed: true };
                if stored.storable() {
                    Some(stored)
                } else {
                    None
                }
            },
            None => None,
        }
    }
}

/// Adds an event to its room at a given time, without holding it against the rules; `None` where
/// nothing can be stored of it.
pub fn add_event_unchecked_at<S: Storage>(
    db: &mut S,
    event: Event,
    auth_events: Vec<String>,
    now: i64,
) -> (r: Result<Option<String>, ErrorKind>)
    ensures
        final(db).reliable() == old(db).reliable(),
        match r {
            Ok(Some(id)) => event@.room_id is Some && old(db)@.rooms.contains_key(
                event@.room_id->0,
            ) && appends(
                old(db)@,
                final(db)@,
                unchecked(old(db)@.rooms, event@, texts(auth_events@), now),
                id@,
            ),
            Ok(None) => (event@.room_id is None || (old(db)@.rooms.contains_key(event@.room_id->0)
                && unchecked(old(db)@.rooms, event@, texts(auth_events@), now) is None))
                && final(db)@ == old(db)@,
            Err(e) => if db_failed(r) {
                !old(db).reliable()
            } else {
                e@ == ErrorView::RoomNotFound && event@.room_id is Some && !old(
                    db,
                )@.rooms.contains_key(event@.room_id->0) && final(db)@ == old(db)@
            },
        },
{
    let room_id = match event.room_id {
        Some(room_id) => room_id,
        None => return Ok(None),
    };
    let (prev_events, depth) = match db.get_prev_events(room_id.as_str()) {
        Ok(found) => found,
        Err(e) => return Err(e),
    };
    if depth == i64::MAX {
        return Ok(None);
    }
    let new_event = NewEvent {
        event_content: event.event_content,
        sender: event.sender,
        state_key: event.state_key,
        redacts: event.redacts,
        unsigned: event.unsigned,
    };
    let unhashed = place(room_id.as_str(), new_event, now, prev_events, depth + 1, auth_events);
    let stored = match unhashed.try_finalize() {
        Some(pdu) => match StoredPdu::new(VersionedPdu::V4(pdu), AuthStatus::Pass) {
            Some(stored) => stored,
            None => return Ok(None),
        },
        None => return Ok(None),
    };
    let event_id = stored.event_id().to_owned();
    match db.append_pdu(&stored) {
        Ok(_) => Ok(Some(event_id)),
        Err(error) => Err(error),
    }
}

/// What can be done with any storage.
pub trait StorageExt: Storage {
    /// Adds an event to a room; `None` where nothing can be stored of it.
    fn try_add_event(
        &mut self,
        room_id: &str,
        event: NewEvent,
        state_resolver: &mut StateResolver,
    ) -> (r: Result<Option<String>, ErrorKind>)
        requires
            at_home(old(self)@.rooms),
            old(state_resolver).valid(old(self)@.rooms),
        ensures
            final(self).reliable() == old(self).reliable(),
            !db_failed(r) ==> at_home(final(self)@.rooms) && final(state_resolver).valid(
                final(self)@.rooms,
            ),
            match r {
                Ok(Some(id)) => old(self)@.rooms.contains_key(room_id@) && exists|now: i64|
                    adds(old(self)@, final(self)@, drafted(
                        old(self)@.rooms,
                        room_id@,
                        event@,
                        now,
                    ), id@),
                Ok(None) => old(self)@.rooms.contains_key(room_id@) && final(self)@ == old(self)@
                    && exists|now: i64| #[trigger]
                    drafted(old(self)@.rooms, room_id@, event@, now) is None,
                Err(e) => if db_failed(r) {
                    !old(self).reliable()
                } else {
                    e@ == ErrorView::RoomNotFound && !old(self)@.rooms.contains_key(room_id@)
                        && final(self)@ == old(self)@
                },
            },
    {
        let now: i64 = now_millis();
        let r = add_event_at(self, room_id, event, state_resolver, now);
        proof {
            let stored = drafted(old(self)@.rooms, room_id@, event@, now);
            if r is Ok && r->Ok_0 is Some {
                assert(adds(old(self)@, self@, stored, r->Ok_0->0@));
            }
        }
        r
    }

    /// Adds an event to a room.
    fn add_event(
        &mut self,
        room_id: &str,
        event: NewEvent,
        state_resolver: &mut StateResolver,
    ) -> (r: Result<String, ErrorKind>)
        requires
            at_home(old(self)@.rooms),
            old(state_resolver).valid(old(self)@.rooms),
            old(self)@.rooms.contains_key(room_id@) ==> forall|now: i64| #[trigger]
                drafted(old(self)@.rooms, room_id@, event@, now) is Some,
        ensures
            final(self).reliable() == old(self).reliable(),
            !db_failed(r) ==> at_home(final(self)@.rooms) && final(state_resolver).valid(
                final(self)@.rooms,
            ),
            match r {
                Ok(id) => old(self)@.rooms.contains_key(room_id@) && exists|now: i64|
                    adds(old(self)@, final(self)@, drafted(
                        old(self)@.rooms,
                        room_id@,
                        event@,
                        now,
                    ), id@),
                Err(e) => if db_failed(r) {
                    !old(self).reliable()
                } else {
                    e@ == ErrorView::RoomNotFound && !old(self)@.rooms.contains_key(room_id@)
                        && final(self)@ == old(self)@
                },
            },
    {
        match self.try_add_event(room_id, event, state_resolver) {
            Ok(id) => Ok(id.unwrap()),
            Err(e) => Err(e),
        }
    }

    /// Adds an event to its room, without holding it against the rules; `None` where nothing can be
    /// stored of it.
    fn add_event_unchecked(&mut self, event: Event, auth_events: Vec<String>) -> (r: Result<
        Option<String>,
        ErrorKind,
    >)
        ensures
            final(self).reliable() == old(self).reliable(),
            match r {
                Ok(Some(id)) => event@.room_id is Some && old(self)@.rooms.contains_key(
                    event@.room_id->0,
                ) && exists|now: i64|
                    appends(
                        old(self)@,
                        final(self)@,
                        #[trigger] unchecked(
                            old(self)@.rooms,
                            event@,
                            texts(auth_events@),
                            now,
                        ),
                        id@,
                    ),
                Ok(None) => (event@.room_id is None || (old(self)@.rooms.contains_key(
                    event@.room_id->0,
                ) && exists|now: i64| #[trigger]
                    unchecked(old(self)@.rooms, event@, texts(auth_events@), now) is None))
                    && final(self)@ == old(self)@,
                Err(e) => if db_failed(r) {
                    !old(self).reliable()
                } else {
                    e@ == ErrorView::RoomNotFound && event@.room_id is Some && !old(
                        self,
                    )@.rooms.contains_key(event@.room_id->0) && final(self)@ == old(self)@
                },
            },
    {
        let now: i64 = now_millis();
        add_event_unchecked_at(self, event, auth_events, now)
    }

    /// The level of the sender of an event.
    fn get_sender_power_level(&self, room_id: &str, event_id: &str) -> (r: Result<u32, ErrorKind>)
        requires
            sender_level(self@.rooms, room_id@, event_id@) is Some,
        ensures
            match r {
                Ok(level) => sender_level(self@.rooms, room_id@, event_id@) == Some(level),
                Err(_) => db_failed(r) && !self.reliable(),
            },
    {
        match try_sender_power_level(self, room_id, event_id) {
            Ok(level) => Ok(level.unwrap()),
            Err(e) => Err(e),
        }
    }

    /// Adds three users, `alice`, `bob` and `carol`. All passwords are "password".
    fn create_test_users(&mut self) -> (r: Result<(), ErrorKind>)
        ensures
            final(self).reliable() == old(self).reliable(),
            match r {
                Ok(_) => with_test_users(old(self)@, final(self)@),
                Err(e) => if db_failed(r) {
                    !old(self).reliable()
                } else {
                    e@ == ErrorView::UsernameTaken && with_first_users(old(self)@, final(self)@)
                },
            },
    {
        proof {
            reveal_strlit("alice");
            reveal_strlit("bob");
            reveal_strlit("carol");
            reveal_strlit("password");
            lemma_short_password();
            assert("alice"@.len() != "bob"@.len() && "carol"@.len() != "bob"@.len());
            assert("alice"@[0] != "carol"@[0]);
        }
        match self.create_user("alice", "password") {
            Ok(_) => {},
            Err(e) => return Err(e),
        }
        let ghost first = self@;
        let ghost a = first.users["alice"@].password_hash;
        assert(is_test_hash(a));
        match self.create_user("bob", "password") {
            Ok(_) => {},
            Err(e) => return Err(e),
        }
        let ghost second = self@;
        let ghost b = second.users["bob"@].password_hash;
        assert(is_test_hash(b));
        match self.create_user("carol", "password") {
            Ok(_) => {},
            Err(e) => return Err(e),
        }
        proof {
            let c = self@.users["carol"@].password_hash;
            assert(is_test_hash(c));
        }
        Ok(())
    }
}

impl<S: Storage> StorageExt for S {

}

/// Whether an event was added to its room under an identifier.
pub open spec fn appends(
    before: StorageView,
    after: StorageView,
    stored: Option<StoredView>,
    id: Seq<char>,
) -> bool {
    &&& stored is Some && stored->0.id() == id
    &&& after == (StorageView { rooms: appended(before.rooms, stored->0), ..before })
}

/// Whether an event was stored under an identifier.
pub open spec fn adds(
    before: StorageView,
    after: StorageView,
    stored: Option<StoredView>,
    id: Seq<char>,
) -> bool {
    &&& stored is Some && stored->0.id() == id
    &&& add_one(before.rooms, stored->0) is Some
    &&& after == (StorageView { rooms: add_one(before.rooms, stored->0)->0, ..before })
}

/// Whether a hash accepts the password of the test users.
pub open spec fn is_test_hash(hash: Seq<char>) -> bool {
    hash_accepts(hash, encode_utf8("password"@)) == Some(true)
}

/// Whether the three test users were added, and nothing else was changed.
pub open spec fn with_test_users(before: StorageView, after: StorageView) -> bool {
    &&& !before.users.contains_key("alice"@)
    &&& !before.users.contains_key("bob"@)
    &&& !before.users.contains_key("carol"@)
    &&& exists|a: Seq<char>, b: Seq<char>, c: Seq<char>|
        #![trigger is_test_hash(a), is_test_hash(b), is_test_hash(c)]
        is_test_hash(a) && is_test_hash(b) && is_test_hash(c) && after == (StorageView {
            users: before.users.insert("alice"@, new_user(a)).insert("bob"@, new_user(b)).insert(
                "carol"@,
                new_user(c),
            ),
            ..before
        })
}

/// Whether one of the three names was taken, the test users before the first of those were added, and
/// nothing else was changed.
pub open spec fn with_first_users(before: StorageView, after: StorageView) -> bool {
    if before.users.contains_key("alice"@) {
        after == before
    } else if before.users.contains_key("bob"@) {
        exists|a: Seq<char>| #[trigger]
            is_test_hash(a) && after == (StorageView {
                users: before.users.insert("alice"@, new_user(a)),
                ..before
            })
    } else {
        &&& before.users.contains_key("carol"@)
        &&& exists|a: Seq<char>, b: Seq<char>|
            #![trigger is_test_hash(a), is_test_hash(b)]
            is_test_hash(a) && is_test_hash(b) && after == (StorageView {
                users: before.users.insert("alice"@, new_user(a)).insert("bob"@, new_user(b)),
                ..before
            })
    }
}

proof fn lemma_short_password()
    ensures
        encode_utf8("password"@).len() <= u32::MAX,
{
    reveal_strlit("password");
    vstd::utf8::is_ascii_chars_encode_utf8("password"@);
}

/// What an optional identifier says.
pub open spec fn mxid_opt(id: Option<MatrixId>) -> Option<Seq<char>> {
    match id {
        Some(i) => Some(i@),
        None => None,
    }
}

} // verus!
