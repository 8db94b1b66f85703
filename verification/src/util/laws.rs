//! How new events get their places.
use crate::error::{ErrorKind, ErrorView};
use crate::events::pdu::StoredView;
use crate::events::room_version::v4::{PduView, UnhashedView};
use crate::events::room::Membership;
use crate::events::{ContentView, Event};
use crate::state::outcome::{first_levels_at, law_sender_level};
use crate::state::resolver::StateResolver;
use crate::state::rules::resolved;
use crate::state::StateView;
use crate::storage::{db_failed, find_pdu, ids_at_depth, max_depth, RoomView, Storage};
use crate::util::mxid::domain_of;
use crate::util::storage::{
    add_event_at, add_event_unchecked_at, cited_ids, drafted, drafted_first, start_room_at,
    try_calc_auth_events, try_sender_power_level, unchecked, NewEvent, NewEventView, StorageExt,
};
use crate::validate::auth::{auth_rules, AuthStatus};
use vstd::prelude::*;

verus! {

/// Whether a depth is the greatest among some events.
pub open spec fn deepest(events: Seq<StoredView>, depth: i64) -> bool {
    &&& forall|i: int| 0 <= i < events.len() ==> (#[trigger] events[i]).pdu.depth <= depth
    &&& exists|i: int| 0 <= i < events.len() && (#[trigger] events[i]).pdu.depth == depth
}

/// The events of a room at a depth, in the order in which they came.
pub open spec fn at_depth(events: Seq<StoredView>, depth: i64) -> Seq<Seq<char>> {
    events.filter(|e: StoredView| e.pdu.depth == depth).map_values(|e: StoredView| e.id())
}

/// Whether a key is one of those that the rules look at for an event.
pub open spec fn looked_at(event: NewEventView, key: (Seq<char>, Seq<char>)) -> bool {
    ||| key == ("m.room.create"@, ""@)
    ||| key == ("m.room.power_levels"@, ""@)
    ||| key == ("m.room.member"@, event.sender)
    ||| (event.content matches ContentView::Member(m) && ((event.state_key matches Some(target)
        && key == ("m.room.member"@, target)) || ((m.membership == Membership::Join || m.membership
        == Membership::Invite) && key == ("m.room.join_rules"@, ""@))))
}

/// Whether an event is one of those of a state that the rules look at.
pub open spec fn is_looked_at(event: NewEventView, state: StateView, id: Seq<char>) -> bool {
    exists|key: (Seq<char>, Seq<char>)| #[trigger]
        looked_at(event, key) && state.map.contains_key(key) && state.map[key] == id
}

/// A new event cites those events of the state that the rules look at, and no others, the create event
/// first. Without a create event, or where it is about the membership of nobody, there is nothing to cite.
pub proof fn law_cited(event: NewEventView, state: StateView, key: (Seq<char>, Seq<char>))
    ensures
        cited_ids(event, state) is Some <==> state.map.contains_key(("m.room.create"@, ""@)) && !(
        event.content is Member && event.state_key is None),
        cited_ids(event, state) is Some ==> ({
            let cited = cited_ids(event, state)->0;
            &&& cited.len() > 0 && cited[0] == state.map[("m.room.create"@, ""@)]
            &&& looked_at(event, key) && state.map.contains_key(key) ==> cited.contains(
                state.map[key],
            )
            &&& forall|i: int|
                0 <= i < cited.len() ==> is_looked_at(event, state, #[trigger] cited[i])
        }),
{
    if cited_ids(event, state) is Some {
        let create = ("m.room.create"@, ""@);
        let cited = cited_ids(event, state)->0;
        let start = seq![state.map[create]];
        assert(start[0] == state.map[create]);
        assert forall|x: Seq<char>| start.contains(x) implies x == state.map[create] by {}
        assert(looked_at(event, create));
        assert forall|x: Seq<char>| #[trigger] cited.contains(x) <==> is_looked_at(event, state, x) by {
            lemma_cited(event, state, x);
        }
        assert forall|i: int| 0 <= i < cited.len() implies is_looked_at(
            event,
            state,
            #[trigger] cited[i],
        ) by {
            assert(cited.contains(cited[i]));
        }
        if looked_at(event, key) && state.map.contains_key(key) {
            assert(is_looked_at(event, state, state.map[key]));
        }
    }
}

proof fn lemma_joined(s: Seq<Seq<char>>, t: Seq<Seq<char>>, x: Seq<char>)
    ensures
        (s + t).contains(x) == (s.contains(x) || t.contains(x)),
{
    if s.contains(x) {
        let i = choose|i: int| 0 <= i < s.len() && s[i] == x;
        assert((s + t)[i] == x);
    }
    if t.contains(x) {
        let i = choose|i: int| 0 <= i < t.len() && t[i] == x;
        assert((s + t)[s.len() + i] == x);
    }
    if (s + t).contains(x) {
        let i = choose|i: int| 0 <= i < (s + t).len() && (s + t)[i] == x;
        if i < s.len() {
            assert(s[i] == x);
        } else {
            assert(t[i - s.len()] == x);
        }
    }
}

proof fn lemma_state_id(state: StateView, ty: Seq<char>, key: Seq<char>, x: Seq<char>)
    ensures
        crate::util::storage::state_id(state, ty, key).contains(x) == (state.map.contains_key(
            (ty, key),
        ) && state.map[(ty, key)] == x),
{
    if state.map.contains_key((ty, key)) {
        assert(seq![state.map[(ty, key)]][0] == state.map[(ty, key)]);
    }
}

proof fn lemma_cited(event: NewEventView, state: StateView, x: Seq<char>)
    requires
        cited_ids(event, state) is Some,
    ensures
        cited_ids(event, state)->0.contains(x) == is_looked_at(event, state, x),
{
    let create = ("m.room.create"@, ""@);
    let levels = ("m.room.power_levels"@, ""@);
    let own = ("m.room.member"@, event.sender);
    let rules = ("m.room.join_rules"@, ""@);
    let target = ("m.room.member"@, event.state_key->0);
    let a = seq![state.map[create]];
    let b = crate::util::storage::state_id(state, levels.0, levels.1);
    let c = crate::util::storage::state_id(state, own.0, own.1);
    let d = crate::util::storage::state_id(state, target.0, target.1);
    let e = crate::util::storage::state_id(state, rules.0, rules.1);
    assert(a[0] == state.map[create]);
    assert(a.contains(x) == (x == state.map[create]));
    lemma_state_id(state, levels.0, levels.1, x);
    lemma_state_id(state, own.0, own.1, x);
    lemma_state_id(state, target.0, target.1, x);
    lemma_state_id(state, rules.0, rules.1, x);
    lemma_joined(a, b, x);
    lemma_joined(a + b, c, x);
    lemma_joined(a + b + c, d, x);
    lemma_joined(a + b + c + d, e, x);
    let list = cited_ids(event, state)->0;
    if list.contains(x) {
        if a.contains(x) {
            assert(looked_at(event, create));
        } else if b.contains(x) {
            assert(looked_at(event, levels));
        } else if c.contains(x) {
            assert(looked_at(event, own));
        } else if d.contains(x) {
            assert(looked_at(event, target));
        } else {
            assert(looked_at(event, rules));
        }
    }
}

/// What is stored of a new event says what was sent, comes from the server of its sender at the time it was
/// sent, follows the deepest events of its room, lies one deeper, cites what the rules look at in the state
/// after those, and counts as allowed exactly where the rules allow it in that state.
pub proof fn law_new_event(
    rooms: Map<Seq<char>, RoomView>,
    room: Seq<char>,
    event: NewEventView,
    now: i64,
    depth: i64,
)
    requires
        drafted(rooms, room, event, now) is Some,
        deepest(rooms[room].events, depth),
    ensures
        ({
            let e = drafted(rooms, room, event, now)->0;
            let state = resolved(rooms, room, at_depth(rooms[room].events, depth));
            &&& e.pdu.content == event.content && !(event.content is Create)
            &&& e.pdu.room_id == room
            &&& e.pdu.sender == event.sender
            &&& e.pdu.state_key == event.state_key
            &&& e.pdu.unsigned == event.unsigned
            &&& e.pdu.redacts == event.redacts
            &&& e.pdu.origin == domain_of(event.sender)
            &&& e.pdu.origin_server_ts == now
            &&& e.pdu.prev_events == at_depth(rooms[room].events, depth)
            &&& depth < i64::MAX ==> e.pdu.depth == depth + 1
            &&& state is Some
            &&& cited_ids(event, state->0) == Some(e.pdu.auth_events)
            &&& e.passed <==> auth_rules(rooms, e.pdu, state->0) == Some(AuthStatus::Pass)
        }),
{
    lemma_deepest(rooms[room].events, depth);
}

proof fn lemma_deepest(events: Seq<StoredView>, depth: i64)
    requires
        deepest(events, depth),
    ensures
        max_depth(events) == depth,
        ids_at_depth(events, depth) == at_depth(events, depth),
{
    let i = choose|i: int| 0 <= i < events.len() && (#[trigger] events[i]).pdu.depth == depth;
    crate::storage::laws::law_greatest_depth(events);
    assert(events[i].pdu.depth <= max_depth(events));
    let j = choose|j: int|
        0 <= j < events.len() && (#[trigger] events[j]).pdu.depth == max_depth(events);
    assert(events[j].pdu.depth <= depth);
    crate::storage::laws::law_ids_at_depth(events, depth);
}

/// An event that was added is at the end of its room, and nothing else was changed.
pub proof fn law_event_sent<S: Storage>(
    db: &mut S,
    room_id: &str,
    event: NewEvent,
    state_resolver: &mut StateResolver,
    now: i64,
    r: Result<Option<String>, ErrorKind>,
    other: Seq<char>,
)
    requires
        call_ensures(add_event_at::<S>, (db, room_id, event, state_resolver, now), r),
        !db_failed(r),
    ensures
        r is Err <==> !old(db)@.rooms.contains_key(room_id@),
        r is Err ==> r->Err_0@ == ErrorView::RoomNotFound && final(db)@ == old(db)@,
        r is Ok && r->Ok_0 is None ==> final(db)@ == old(db)@ && drafted(
            old(db)@.rooms,
            room_id@,
            event@,
            now,
        ) is None,
        r is Ok && r->Ok_0 is Some ==> ({
            let before = old(db)@.rooms[room_id@].events;
            let after = final(db)@.rooms[room_id@].events;
            &&& drafted(old(db)@.rooms, room_id@, event@, now) == Some(after.last())
            &&& after == before.push(after.last())
            &&& after.last().id() == r->Ok_0->0@
            &&& other != room_id@ ==> final(db)@.rooms.contains_key(other)
                == old(db)@.rooms.contains_key(other) && final(db)@.rooms[other]
                == old(db)@.rooms[other]
            &&& final(db)@.users == old(db)@.users && final(db)@.tokens == old(db)@.tokens
                && final(db)@.txns == old(db)@.txns && final(db)@.batches == old(db)@.batches
        }),
{
    if r is Ok && r->Ok_0 is Some {
        let stored = drafted(old(db)@.rooms, room_id@, event@, now)->0;
        crate::storage::laws::law_event_added(old(db)@.rooms, stored, other);
    }
}

/// An event that is not held against the rules says what was sent, follows the deepest events of its room,
/// lies one deeper, cites what it was given to cite, counts as allowed, and is put at the end of its room.
pub proof fn law_event_unchecked<S: Storage>(
    db: &mut S,
    event: Event,
    auth_events: Vec<String>,
    now: i64,
    r: Result<Option<String>, ErrorKind>,
    depth: i64,
)
    requires
        call_ensures(add_event_unchecked_at::<S>, (db, event, auth_events, now), r),
        r is Ok && r->Ok_0 is Some,
        deepest(old(db)@.rooms[event@.room_id->0].events, depth),
    ensures
        ({
            let room = event@.room_id->0;
            let before = old(db)@.rooms[room].events;
            let after = final(db)@.rooms[room].events;
            let e = after.last();
            &&& event@.room_id is Some && old(db)@.rooms.contains_key(room)
            &&& after == before.push(e)
            &&& e.id() == r->Ok_0->0@
            &&& e.passed
            &&& e.pdu.content == event@.content
            &&& e.pdu.room_id == room
            &&& e.pdu.sender == event@.sender
            &&& e.pdu.state_key == event@.state_key
            &&& e.pdu.unsigned == event@.unsigned
            &&& e.pdu.redacts == event@.redacts
            &&& e.pdu.origin == domain_of(event@.sender)
            &&& e.pdu.origin_server_ts == now
            &&& e.pdu.prev_events == at_depth(before, depth)
            &&& depth < i64::MAX && e.pdu.depth == depth + 1
            &&& e.pdu.auth_events == crate::text::texts(auth_events@)
        }),
{
    let room = event@.room_id->0;
    lemma_deepest(old(db)@.rooms[room].events, depth);
    let stored = unchecked(old(db)@.rooms, event@, crate::text::texts(auth_events@), now)->0;
    crate::storage::laws::law_event_appended(old(db)@.rooms, stored, room);
}

/// A room begins with its create event, which follows nothing, cites nothing, and counts as allowed where
/// the rules allow it.
pub proof fn law_room_started<S: Storage>(
    db: &mut S,
    room_id: &str,
    event: NewEvent,
    state_resolver: &mut StateResolver,
    now: i64,
    r: Result<Option<String>, ErrorKind>,
)
    requires
        call_ensures(start_room_at::<S>, (db, room_id, event, state_resolver, now), r),
        r is Ok && r->Ok_0 is Some,
    ensures
        ({
            let after = final(db)@.rooms[room_id@];
            let e = after.events[0];
            &&& final(db)@.rooms.contains_key(room_id@)
            &&& after.events.len() == 1
            &&& e.id() == r->Ok_0->0@
            &&& event@.content is Create && e.pdu.content == event@.content
            &&& e.pdu.room_id == room_id@
            &&& e.pdu.sender == event@.sender
            &&& e.pdu.state_key == event@.state_key
            &&& e.pdu.origin == domain_of(event@.sender)
            &&& e.pdu.origin_server_ts == now
            &&& e.pdu.prev_events.len() == 0 && e.pdu.auth_events.len() == 0 && e.pdu.depth == 0
            &&& e.passed <==> auth_rules(
                old(db)@.rooms,
                e.pdu,
                StateView { room_id: room_id@, map: Map::empty() },
            ) == Some(AuthStatus::Pass)
        }),
{
    let stored = drafted_first(old(db)@.rooms, room_id@, event@, now)->0;
    crate::storage::laws::law_event_added(old(db)@.rooms, stored, room_id@);
}

/// What a new event is told to cite are those events of the state that the rules look at, and no others.
pub proof fn law_cited_call(
    event: &NewEvent,
    state: &crate::state::State,
    r: Option<Vec<String>>,
    key: (Seq<char>, Seq<char>),
)
    requires
        call_ensures(try_calc_auth_events, (event, state), r),
    ensures
        r is Some <==> state@.map.contains_key(("m.room.create"@, ""@)) && !(event@.content is Member
            && event@.state_key is None),
        r is Some ==> r->0@.len() > 0 && r->0@[0]@ == state@.map[("m.room.create"@, ""@)],
        r is Some && looked_at(event@, key) && state@.map.contains_key(key) ==> crate::text::texts(
            r->0@,
        ).contains(state@.map[key]),
        r is Some ==> forall|i: int|
            0 <= i < r->0@.len() ==> is_looked_at(event@, state@, (#[trigger] r->0@[i])@),
{
    law_cited(event@, state@, key);
    if r is Some {
        let cited = crate::text::texts(r->0@);
        assert(cited[0] == r->0@[0]@);
        assert forall|i: int| 0 <= i < r->0@.len() implies is_looked_at(
            event@,
            state@,
            (#[trigger] r->0@[i])@,
        ) by {
            assert(cited[i] == r->0@[i]@);
        }
    }
}

/// The level of the sender of an event is what the first power levels event that it cites says of them, or
/// of users in general.
pub proof fn law_level_call<S: Storage>(
    db: &S,
    room_id: &str,
    event_id: &str,
    r: Result<Option<u32>, ErrorKind>,
    i: int,
)
    requires
        call_ensures(try_sender_power_level::<S>, (db, room_id, event_id), r),
        r is Ok,
        find_pdu(db@.rooms, room_id@, event_id@) is Some,
        first_levels_at(
            db@.rooms,
            room_id@,
            find_pdu(db@.rooms, room_id@, event_id@)->0.pdu.auth_events,
            i,
        ),
    ensures
        ({
            let e = find_pdu(db@.rooms, room_id@, event_id@)->0.pdu;
            let levels = find_pdu(
                db@.rooms,
                room_id@,
                e.auth_events[i],
            )->0.pdu.content->PowerLevels_0;
            &&& r->Ok_0 is Some
            &&& levels.users.contains_key(e.sender) ==> r->Ok_0->0 == levels.users[e.sender]
            &&& !levels.users.contains_key(e.sender) ==> r->Ok_0->0 == (match levels.users_default {
                Some(n) => n,
                None => 0,
            })
        }),
{
    law_sender_level(db@.rooms, room_id@, event_id@, i);
}

/// After the test users were added, each of them has the password, and none of those who were there has
/// changed.
pub proof fn law_test_users<S: Storage>(db: &mut S, r: Result<(), ErrorKind>, name: Seq<char>)
    requires
        call_ensures(S::create_test_users, (db,), r),
        r is Ok,
    ensures
        name == "alice"@ || name == "bob"@ || name == "carol"@ ==> !old(db)@.users.contains_key(name)
            && final(db)@.users.contains_key(name) && crate::outside::hash_accepts(
            final(db)@.users[name].password_hash,
            vstd::utf8::encode_utf8("password"@),
        ) == Some(true),
        name != "alice"@ && name != "bob"@ && name != "carol"@ ==> final(db)@.users.contains_key(name)
            == old(db)@.users.contains_key(name) && final(db)@.users[name] == old(db)@.users[name],
        final(db)@.tokens == old(db)@.tokens && final(db)@.rooms == old(db)@.rooms,
{
    reveal_strlit("alice");
    reveal_strlit("bob");
    reveal_strlit("carol");
    assert("alice"@.len() != "bob"@.len() && "carol"@.len() != "bob"@.len());
    assert("alice"@[0] != "carol"@[0]);
}

/// Something is stored of a new event exactly where it creates nothing, the state after the deepest events is
/// known, there is something to cite, the event can be hashed and named, its content has the form of its type,
/// and the rules can tell whether it is allowed.
pub proof fn law_event_storable(
    rooms: Map<Seq<char>, RoomView>,
    room: Seq<char>,
    event: NewEventView,
    now: i64,
    depth: i64,
    state: StateView,
    cited: Seq<Seq<char>>,
    pdu: PduView,
)
    requires
        deepest(rooms[room].events, depth),
        depth < i64::MAX,
        resolved(rooms, room, at_depth(rooms[room].events, depth)) == Some(state),
        cited_ids(event, state) == Some(cited),
        (UnhashedView {
            content: event.content,
            room_id: room,
            sender: event.sender,
            state_key: event.state_key,
            unsigned: event.unsigned,
            redacts: event.redacts,
            origin: domain_of(event.sender),
            origin_server_ts: now,
            prev_events: at_depth(rooms[room].events, depth),
            depth: (depth + 1) as i64,
            auth_events: cited,
        }).finalized() == Some(pdu),
    ensures
        drafted(rooms, room, event, now) is Some <==> !(event.content is Create) && auth_rules(
            rooms,
            pdu,
            state,
        ) is Some && pdu.event_id() is Some && event.content.well_labelled(),
        drafted(rooms, room, event, now) is Some ==> drafted(rooms, room, event, now)->0.pdu == pdu,
{
    lemma_deepest(rooms[room].events, depth);
}

} // verus!
