//! Reading events from rooms and sending events to them.
use crate::client::auth::AccessToken;
use crate::error::{fault_error, ErrorKind, ErrorView, JsonFault};
use crate::events::room::{single, Membership};
use crate::events::{ContentView, Event, EventContent, EventView};
use crate::json::{Json, JsonValue};
use crate::outside::now_millis;
use crate::server::{caller_of, gives, ServerState};
use crate::state::growth::{lemma_same_events, same_events};
use crate::storage::{
    client_events, current_state, db_failed, event_views, find_pdu, latest_state, membership_of,
    with_room, with_typing, Storage, StorageView,
};
use crate::util::mxid::mxid_of;
use crate::util::storage::{
    add_event_at, adds, drafted, lemma_still_valid, NewEvent, NewEventView,
};
use vstd::prelude::*;

verus! {

/// How the user of a token stands to a room.
pub open spec fn access_to(s: StorageView, domain: Seq<char>, token: u128, room: Seq<char>) -> Result<
    Option<Membership>,
    ErrorView,
> {
    match caller_of(s, token) {
        Err(e) => Err(e),
        Ok(name) => if s.rooms.contains_key(room) {
            Ok(membership_of(s.rooms[room].events, mxid_of(name, domain)))
        } else {
            Err(ErrorView::RoomNotFound)
        },
    }
}

/// How the user of a token stands to a room.
fn check_access<S: Storage>(state: &ServerState<S>, token: &AccessToken, room_id: &str) -> (r:
    Result<Option<Membership>, ErrorKind>)
    requires
        state.wf(),
    ensures
        match r {
            Ok(membership) => access_to(state.db@, state.config.domain@, token@, room_id@) == Ok::<
                _,
                ErrorView,
            >(membership),
            Err(e) => if db_failed(r) {
                !state.db.reliable()
            } else {
                access_to(state.db@, state.config.domain@, token@, room_id@) == Err::<
                    Option<Membership>,
                    _,
                >(e@)
            },
        },
{
    match state.identify(token.0) {
        Ok((_, user_id)) => state.db.get_membership(&user_id, room_id),
        Err(e) => Err(e),
    }
}

/// What is answered to the question for an event.
pub open spec fn event_answer(
    s: StorageView,
    domain: Seq<char>,
    token: u128,
    room: Seq<char>,
    id: Seq<char>,
) -> Result<EventView, ErrorView> {
    match access_to(s, domain, token, room) {
        Err(e) => Err(e),
        Ok(membership) => if membership != Some(Membership::Join) {
            Err(ErrorView::Forbidden)
        } else {
            match find_pdu(s.rooms, room, id) {
                Some(stored) => Ok(stored.pdu.client_format()),
                None => Err(ErrorView::NotFound),
            }
        },
    }
}

/// An event of a room, for those who are in it.
pub fn get_event<S: Storage>(
    state: &ServerState<S>,
    token: AccessToken,
    room_id: &str,
    event_id: &str,
) -> (r: Result<Event, ErrorKind>)
    requires
        state.wf(),
    ensures
        if db_failed(r) {
            !state.db.reliable()
        } else {
            gives(r, event_answer(state.db@, state.config.domain@, token@, room_id@, event_id@))
        },
{
    match check_access(state, &token, room_id) {
        Ok(Some(Membership::Join)) => {},
        Ok(_) => return Err(ErrorKind::Forbidden),
        Err(e) => return Err(e),
    }
    match state.db.get_pdu(room_id, event_id) {
        Ok(Some(pdu)) => Ok(pdu.to_client_format()),
        Ok(None) => Err(ErrorKind::NotFound),
        Err(e) => Err(e),
    }
}

/// What is answered to the question for a state event.
pub open spec fn state_event_answer(
    s: StorageView,
    domain: Seq<char>,
    token: u128,
    room: Seq<char>,
    ty: Seq<char>,
    key: Seq<char>,
) -> Result<EventView, ErrorView> {
    match access_to(s, domain, token, room) {
        Err(e) => Err(e),
        Ok(membership) => if membership != Some(Membership::Join) {
            Err(ErrorView::Forbidden)
        } else {
            match latest_state(s.rooms[room].events, ty, key) {
                Some(stored) => Ok(stored.pdu.client_format()),
                None => Err(ErrorView::NotFound),
            }
        },
    }
}

/// The current state event of a type with the empty key, for those who are in the room.
pub fn get_state_event_no_key<S: Storage>(
    state: &ServerState<S>,
    token: AccessToken,
    room_id: &str,
    event_type: &str,
) -> (r: Result<Event, ErrorKind>)
    requires
        state.wf(),
    ensures
        if db_failed(r) {
            !state.db.reliable()
        } else {
            gives(
                r,
                state_event_answer(
                    state.db@,
                    state.config.domain@,
                    token@,
                    room_id@,
                    event_type@,
                    ""@,
                ),
            )
        },
{
    get_state_event_inner(state, token, room_id, event_type, "")
}

/// The current state event of a type with a key, for those who are in the room.
pub fn get_state_event_key<S: Storage>(
    state: &ServerState<S>,
    token: AccessToken,
    room_id: &str,
    event_type: &str,
    state_key: &str,
) -> (r: Result<Event, ErrorKind>)
    requires
        state.wf(),
    ensures
        if db_failed(r) {
            !state.db.reliable()
        } else {
            gives(
                r,
                state_event_answer(
                    state.db@,
                    state.config.domain@,
                    token@,
                    room_id@,
                    event_type@,
                    state_key@,
                ),
            )
        },
{
    get_state_event_inner(state, token, room_id, event_type, state_key)
}

/// The current state event of a type with a key, for those who are in the room.
pub fn get_state_event_inner<S: Storage>(
    state: &ServerState<S>,
    token: AccessToken,
    room_id: &str,
    event_type: &str,
    state_key: &str,
) -> (r: Result<Event, ErrorKind>)
    requires
        state.wf(),
    ensures
        if db_failed(r) {
            !state.db.reliable()
        } else {
            gives(
                r,
                state_event_answer(
                    state.db@,
                    state.config.domain@,
                    token@,
                    room_id@,
                    event_type@,
                    state_key@,
                ),
            )
        },
{
    match check_access(state, &token, room_id) {
        Ok(Some(Membership::Join)) => {},
        Ok(_) => return Err(ErrorKind::Forbidden),
        Err(e) => return Err(e),
    }
    match state.db.get_state_event(room_id, event_type, state_key) {
        Ok(Some(event)) => Ok(event),
        Ok(None) => Err(ErrorKind::NotFound),
        Err(e) => Err(e),
    }
}

/// The current state of a room, for those who are in it.
pub open spec fn state_answer(
    s: StorageView,
    domain: Seq<char>,
    token: u128,
    room: Seq<char>,
) -> Result<Seq<EventView>, ErrorView> {
    match access_to(s, domain, token, room) {
        Err(e) => Err(e),
        Ok(Some(Membership::Join)) => Ok(client_events(current_state(s.rooms[room].events))),
        Ok(Some(_)) => Err(ErrorView::Unimplemented),
        Ok(None) => Err(ErrorView::Forbidden),
    }
}

/// The current state of a room, for those who are in it.
pub fn get_state<S: Storage>(state: &ServerState<S>, token: AccessToken, room_id: &str) -> (r: Result<
    Vec<Event>,
    ErrorKind,
>)
    requires
        state.wf(),
    ensures
        ({
            let wanted = state_answer(state.db@, state.config.domain@, token@, room_id@);
            match r {
                Ok(events) => wanted == Ok::<_, ErrorView>(event_views(events@)),
                Err(e) => if db_failed(r) {
                    !state.db.reliable()
                } else {
                    wanted == Err::<Seq<EventView>, _>(e@)
                },
            }
        }),
{
    match check_access(state, &token, room_id) {
        Ok(Some(Membership::Join)) => {},
        Ok(Some(_)) => return Err(ErrorKind::Unimplemented),
        Ok(None) => return Err(ErrorKind::Forbidden),
        Err(e) => return Err(e),
    }
    state.db.get_full_state(room_id)
}

pub struct MembersRequest {
    pub at: String,
    pub membership: Option<Membership>,
    pub not_membership: Option<Membership>,
}

pub struct MembersResponse {
    pub chunk: Vec<Event>,
}

/// Whether an event makes someone a member in the way that is asked for.
pub open spec fn is_asked_member(
    e: EventView,
    wanted: Option<Membership>,
    unwanted: Option<Membership>,
) -> bool {
    match e.content {
        ContentView::Member(m) => (wanted is Some ==> m.membership == wanted->0) && (unwanted is Some
            ==> m.membership != unwanted->0),
        _ => false,
    }
}

/// Those of some events that make someone a member in the way that is asked for.
pub open spec fn asked_members(
    events: Seq<EventView>,
    wanted: Option<Membership>,
    unwanted: Option<Membership>,
) -> Seq<EventView>
    decreases events.len(),
{
    if events.len() == 0 {
        Seq::empty()
    } else {
        let before = asked_members(events.drop_last(), wanted, unwanted);
        if is_asked_member(events.last(), wanted, unwanted) {
            before.push(events.last())
        } else {
            before
        }
    }
}

fn asks_for(event: &Event, wanted: Option<Membership>, unwanted: Option<Membership>) -> (r: bool)
    ensures
        r == is_asked_member(event@, wanted, unwanted),
{
    match &event.event_content {
        EventContent::Member(content) => {
            let fits = match wanted {
                Some(filter) => content.membership == filter,
                None => true,
            };
            let spared = match unwanted {
                Some(exclude) => content.membership != exclude,
                None => true,
            };
            fits && spared
        },
        _ => false,
    }
}

/// The membership events of a room, for those who are in it.
pub fn get_members<S: Storage>(
    state: &ServerState<S>,
    token: AccessToken,
    room_id: &str,
    req: MembersRequest,
) -> (r: Result<MembersResponse, ErrorKind>)
    requires
        state.wf(),
    ensures
        ({
            let wanted = state_answer(state.db@, state.config.domain@, token@, room_id@);
            match r {
                Ok(response) => wanted is Ok && event_views(response.chunk@) == asked_members(
                    wanted->Ok_0,
                    req.membership,
                    req.not_membership,
                ),
                Err(e) => if db_failed(r) {
                    !state.db.reliable()
                } else {
                    wanted == Err::<Seq<EventView>, _>(e@)
                },
            }
        }),
{
    let mut rest = match get_state(state, token, room_id) {
        Ok(events) => events,
        Err(e) => return Err(e),
    };
    let ghost all = event_views(rest@);
    let ghost asked = asked_members(all, req.membership, req.not_membership);
    let mut kept: Vec<Event> = Vec::new();
    assert(asked + event_views(kept@).reverse() =~= asked);
    while rest.len() > 0
        invariant
            asked_members(event_views(rest@), req.membership, req.not_membership) + event_views(
                kept@,
            ).reverse() == asked,
        decreases rest@.len(),
    {
        let ghost left = event_views(rest@);
        let ghost done = event_views(kept@);
        let event = rest.pop().unwrap();
        assert(event_views(rest@) =~= left.drop_last());
        assert(left.last() == event@);
        if asks_for(&event, req.membership, req.not_membership) {
            let ghost e = event@;
            kept.push(event);
            proof {
                assert(event_views(kept@) =~= done.push(e));
                let before = asked_members(
                    event_views(rest@),
                    req.membership,
                    req.not_membership,
                );
                assert(before + event_views(kept@).reverse() =~= before.push(e) + done.reverse());
            }
        }
    }
    let mut chunk: Vec<Event> = Vec::new();
    assert(event_views(kept@).reverse() =~= asked);
    while kept.len() > 0
        invariant
            event_views(chunk@) + event_views(kept@).reverse() == asked,
        decreases kept@.len(),
    {
        let ghost left = event_views(kept@);
        let ghost done = event_views(chunk@);
        let event = kept.pop().unwrap();
        let ghost e = event@;
        chunk.push(event);
        proof {
            assert(event_views(kept@) =~= left.drop_last());
            assert(left.last() == e);
            assert(event_views(chunk@) =~= done.push(e));
            assert(event_views(chunk@) + event_views(kept@).reverse() =~= done + left.reverse());
        }
    }
    assert(event_views(chunk@) =~= asked);
    Ok(MembersResponse { chunk })
}

pub struct SendEventResponse {
    pub event_id: String,
}

/// Why the content of an event could not be read.
pub struct ContentFault {
    pub fault: JsonFault,
    pub words: String,
}

/// What is sent of a state event.
pub open spec fn state_event(
    content: ContentView,
    sender: Seq<char>,
    state_key: Seq<char>,
) -> NewEventView {
    NewEventView { content, sender, state_key: Some(state_key), redacts: None, unsigned: None }
}

/// What is sent of an event that is no state event, under a transaction identifier.
pub open spec fn timeline_event(
    content: ContentView,
    sender: Seq<char>,
    txn_id: Seq<char>,
) -> NewEventView {
    NewEventView {
        content,
        sender,
        state_key: None,
        redacts: None,
        unsigned: Some(single("transaction_id"@, Json::Text(txn_id))),
    }
}

/// Sends a state event to a room at a given time; `None` where nothing can be stored of it.
pub fn send_state_event_at<S: Storage>(
    state: &mut ServerState<S>,
    token: AccessToken,
    room_id: &str,
    state_key: String,
    content: Result<EventContent, ContentFault>,
    now: i64,
) -> (r: Result<Option<SendEventResponse>, ErrorKind>)
    requires
        old(state).wf(),
    ensures
        final(state).config == old(state).config,
        final(state).db.reliable() == old(state).db.reliable(),
        !db_failed(r) ==> final(state).wf(),
        db_failed(r) ==> !old(state).db.reliable(),
        !db_failed(r) ==> match caller_of(old(state).db@, token@) {
            Err(e) => r is Err && r->Err_0@ == e && final(state).db@ == old(state).db@,
            Ok(name) => match content {
                Err(f) => r is Err && r->Err_0@ == fault_error(f.fault, f.words@)
                    && final(state).db@ == old(state).db@,
                Ok(c) => {
                    let event = state_event(
                        c@,
                        mxid_of(name, old(state).config.domain@),
                        state_key@,
                    );
                    if !old(state).db@.rooms.contains_key(room_id@) {
                        r is Err && r->Err_0@ == ErrorView::RoomNotFound && final(state).db@
                            == old(state).db@
                    } else {
                        sends(
                            r,
                            old(state).db@,
                            final(state).db@,
                            drafted(old(state).db@.rooms, room_id@, event, now),
                        )
                    }
                },
            },
        },
{
    let user_id = match state.identify(token.0) {
        Ok((_, user_id)) => user_id,
        Err(e) => return Err(e),
    };
    let event_content = match content {
        Ok(c) => c,
        Err(f) => return Err(ErrorKind::from_json_fault(f.fault, f.words)),
    };
    let event = NewEvent {
        event_content,
        sender: user_id,
        state_key: Some(state_key),
        redacts: None,
        unsigned: None,
    };
    match add_event_at(&mut state.db, room_id, event, &mut state.state_resolver, now) {
        Ok(Some(event_id)) => Ok(Some(SendEventResponse { event_id })),
        Ok(None) => Ok(None),
        Err(e) => Err(e),
    }
}

/// Whether an event was sent: it was stored under the identifier that is answered, or nothing could
/// be stored of it and nothing was changed.
pub open spec fn sends(
    r: Result<Option<SendEventResponse>, ErrorKind>,
    before: StorageView,
    after: StorageView,
    stored: Option<crate::events::pdu::StoredView>,
) -> bool {
    match r {
        Ok(Some(response)) => adds(before, after, stored, response.event_id@),
        Ok(None) => stored is None && after == before,
        Err(_) => false,
    }
}

/// The store once a transaction has been recorded.
pub open spec fn with_txn(s: StorageView, token: u128, txn_id: Seq<char>) -> StorageView {
    StorageView { txns: s.txns.insert((token, txn_id)), ..s }
}

/// The store once a user has stopped typing in a room.
pub open spec fn stopped_typing(s: StorageView, room: Seq<char>, user: Seq<char>) -> StorageView {
    with_room(s, room, with_typing(s.rooms[room], user, false, 0))
}

/// Sends an event to a room at a given time; `None` where nothing can be stored of it. Each
/// transaction of a token is carried out once, and the sender stops typing.
pub fn send_event_at<S: Storage>(
    state: &mut ServerState<S>,
    token: AccessToken,
    room_id: &str,
    txn_id: String,
    content: Result<EventContent, ContentFault>,
    now: i64,
) -> (r: Result<Option<SendEventResponse>, ErrorKind>)
    requires
        old(state).wf(),
    ensures
        final(state).config == old(state).config,
        final(state).db.reliable() == old(state).db.reliable(),
        !db_failed(r) ==> final(state).wf(),
        db_failed(r) ==> !old(state).db.reliable(),
        !db_failed(r) ==> match caller_of(old(state).db@, token@) {
            Err(e) => r is Err && r->Err_0@ == e && final(state).db@ == old(state).db@,
            Ok(name) => if old(state).db@.txns.contains((token@, txn_id@)) {
                r is Err && r->Err_0@ == ErrorView::TxnIdExists && final(state).db@ == old(
                    state,
                ).db@
            } else {
                let recorded = with_txn(old(state).db@, token@, txn_id@);
                match content {
                    Err(f) => r is Err && r->Err_0@ == fault_error(f.fault, f.words@)
                        && final(state).db@ == recorded,
                    Ok(c) => {
                        let sender = mxid_of(name, old(state).config.domain@);
                        let stopped = stopped_typing(recorded, room_id@, sender);
                        if !recorded.rooms.contains_key(room_id@) {
                            r is Err && r->Err_0@ == ErrorView::RoomNotFound && final(state).db@
                                == recorded
                        } else {
                            sends(
                                r,
                                stopped,
                                final(state).db@,
                                drafted(
                                    stopped.rooms,
                                    room_id@,
                                    timeline_event(c@, sender, txn_id@),
                                    now,
                                ),
                            )
                        }
                    },
                }
            },
        },
{
    let user_id = match state.identify(token.0) {
        Ok((_, user_id)) => user_id,
        Err(e) => return Err(e),
    };
    match state.db.record_txn(token.0, txn_id.clone()) {
        Ok(true) => {},
        Ok(false) => {
            assert(state.db@.txns =~= old(state).db@.txns);
            return Err(ErrorKind::TxnIdExists);
        },
        Err(e) => return Err(e),
    }
    let event_content = match content {
        Ok(c) => c,
        Err(f) => return Err(ErrorKind::from_json_fault(f.fault, f.words)),
    };
    let mut unsigned = JsonValue::object();
    unsigned.insert("transaction_id", JsonValue::text(txn_id.as_str()));
    assert(unsigned@->Object_0 =~= single(
        "transaction_id"@,
        Json::Text(txn_id@),
    )->Object_0);
    let ghost before = state.db@.rooms;
    match state.db.set_typing(room_id, &user_id, false, 0, 0) {
        Ok(()) => {},
        Err(e) => return Err(e),
    }
    proof {
        assert(same_events(before, state.db@.rooms));
        lemma_same_events(before, state.db@.rooms);
        lemma_still_valid(&state.state_resolver, before, state.db@.rooms);
    }
    let event = NewEvent {
        event_content,
        sender: user_id,
        state_key: None,
        redacts: None,
        unsigned: Some(unsigned),
    };
    match add_event_at(&mut state.db, room_id, event, &mut state.state_resolver, now) {
        Ok(Some(event_id)) => Ok(Some(SendEventResponse { event_id })),
        Ok(None) => Ok(None),
        Err(e) => Err(e),
    }
}

/// Sends a state event to a room; `None` where nothing can be stored of it.
pub fn send_state_event<S: Storage>(
    state: &mut ServerState<S>,
    token: AccessToken,
    room_id: &str,
    state_key: String,
    content: Result<EventContent, ContentFault>,
) -> (r: Result<Option<SendEventResponse>, ErrorKind>)
    requires
        old(state).wf(),
    ensures
        final(state).config == old(state).config,
        final(state).db.reliable() == old(state).db.reliable(),
        !db_failed(r) ==> final(state).wf(),
        db_failed(r) ==> !old(state).db.reliable(),
        !db_failed(r) ==> match caller_of(old(state).db@, token@) {
            Err(e) => r is Err && r->Err_0@ == e && final(state).db@ == old(state).db@,
            Ok(name) => match content {
                Err(f) => r is Err && r->Err_0@ == fault_error(f.fault, f.words@)
                    && final(state).db@ == old(state).db@,
                Ok(c) => if !old(state).db@.rooms.contains_key(room_id@) {
                    r is Err && r->Err_0@ == ErrorView::RoomNotFound && final(state).db@ == old(
                        state,
                    ).db@
                } else {
                    exists|now: i64|
                        sends(
                            r,
                            old(state).db@,
                            final(state).db@,
                            #[trigger] drafted(
                                old(state).db@.rooms,
                                room_id@,
                                state_event(
                                    c@,
                                    mxid_of(name, old(state).config.domain@),
                                    state_key@,
                                ),
                                now,
                            ),
                        )
                },
            },
        },
{
    let now: i64 = now_millis();
    send_state_event_at(state, token, room_id, state_key, content, now)
}

/// Sends an event to a room; `None` where nothing can be stored of it. Each transaction of a token is
/// carried out once, and the sender stops typing.
pub fn send_event<S: Storage>(
    state: &mut ServerState<S>,
    token: AccessToken,
    room_id: &str,
    txn_id: String,
    content: Result<EventContent, ContentFault>,
) -> (r: Result<Option<SendEventResponse>, ErrorKind>)
    requires
        old(state).wf(),
    ensures
        final(state).config == old(state).config,
        final(state).db.reliable() == old(state).db.reliable(),
        !db_failed(r) ==> final(state).wf(),
        db_failed(r) ==> !old(state).db.reliable(),
        !db_failed(r) ==> match caller_of(old(state).db@, token@) {
            Err(e) => r is Err && r->Err_0@ == e && final(state).db@ == old(state).db@,
            Ok(name) => if old(state).db@.txns.contains((token@, txn_id@)) {
                r is Err && r->Err_0@ == ErrorView::TxnIdExists && final(state).db@ == old(
                    state,
                ).db@
            } else {
                let recorded = with_txn(old(state).db@, token@, txn_id@);
                match content {
                    Err(f) => r is Err && r->Err_0@ == fault_error(f.fault, f.words@)
                        && final(state).db@ == recorded,
                    Ok(c) => {
                        let sender = mxid_of(name, old(state).config.domain@);
                        let stopped = stopped_typing(recorded, room_id@, sender);
                        if !recorded.rooms.contains_key(room_id@) {
                            r is Err && r->Err_0@ == ErrorView::RoomNotFound && final(state).db@
                                == recorded
                        } else {
                            exists|now: i64|
                                sends(
                                    r,
                                    stopped,
                                    final(state).db@,
                                    #[trigger] drafted(
                                        stopped.rooms,
                                        room_id@,
                                        timeline_event(c@, sender, txn_id@),
                                        now,
                                    ),
                                )
                        }
                    },
                }
            },
        },
{
    let now: i64 = now_millis();
    send_event_at(state, token, room_id, txn_id, content, now)
}

/// A transaction that has been recorded is known, and stays known.
pub proof fn law_transaction_once(s: StorageView, token: u128, txn_id: Seq<char>)
    ensures
        with_txn(s, token, txn_id).txns.contains((token, txn_id)),
        with_txn(with_txn(s, token, txn_id), token, txn_id) == with_txn(s, token, txn_id),
        forall|other: (u128, Seq<char>)| #[trigger]
            s.txns.contains(other) ==> with_txn(s, token, txn_id).txns.contains(other),
{
    assert(with_txn(with_txn(s, token, txn_id), token, txn_id).txns =~= with_txn(
        s,
        token,
        txn_id,
    ).txns);
}

} // verus!
