//! What clients get for what they ask.
use crate::client::auth::{
    login_with, logout, logout_all, register_with, token_of, AccessToken, Identifier, LoginRequest,
    LoginResponse, RegisterRequest,
};
use crate::client::ephemeral::{typing, TypingRequest};
use crate::client::room_events::{
    get_event, get_members, get_state, get_state_event_inner, get_state_event_key,
    get_state_event_no_key, send_event_at, send_state_event_at, ContentFault, MembersRequest,
    MembersResponse, SendEventResponse,
};
use crate::client::sync_laws::shows_event;
use crate::client::user::{
    get_avatar_url, get_display_name, get_profile, search_user_directory, set_avatar_url,
    set_display_name, UserDirSearchRequest, UserDirSearchResponse,
};
use crate::error::{ErrorKind, ErrorView};
use crate::events::laws::{member, text_member};
use crate::events::room::Membership;
use crate::events::{ContentView, Event, EventContent, EventView};
use crate::json::{Json, JsonValue};
use crate::outside::{hash_accepts, uuid_parsed, uuid_text};
use crate::server::ServerState;
use crate::storage::{
    current_state, db_failed, event_views, find_pdu, latest_state, membership_of, Storage,
    StorageView,
};
use crate::util::mxid::{domain_of, localpart_of, mxid_of, mxid_verdict, parts_verdict, MatrixId};
use crate::util::storage::{drafted, NewEventView};
use vstd::prelude::*;
use vstd::utf8::encode_utf8;

verus! {

/// Whether the user of a token has joined a room.
pub open spec fn has_joined(
    s: StorageView,
    domain: Seq<char>,
    token: u128,
    room: Seq<char>,
) -> bool {
    &&& s.tokens.contains_key(token)
    &&& s.rooms.contains_key(room)
    &&& membership_of(s.rooms[room].events, mxid_of(s.tokens[token], domain)) == Some(
        Membership::Join,
    )
}

/// Why someone who has not joined a room is told nothing of it.
pub open spec fn turned_away(s: StorageView, token: u128, room: Seq<char>) -> ErrorView {
    if !s.tokens.contains_key(token) {
        ErrorView::UnknownToken
    } else if !s.rooms.contains_key(room) {
        ErrorView::RoomNotFound
    } else {
        ErrorView::Forbidden
    }
}

/// Those who have joined a room, and only they, are shown an event of it as it is kept.
pub proof fn law_event_read<S: Storage>(
    state: &ServerState<S>,
    token: AccessToken,
    room_id: &str,
    event_id: &str,
    r: Result<Event, ErrorKind>,
)
    requires
        call_ensures(get_event::<S>, (state, token, room_id, event_id), r),
        !db_failed(r),
    ensures
        ({
            let joined = has_joined(state.db@, state.config.domain@, token.0, room_id@);
            let found = find_pdu(state.db@.rooms, room_id@, event_id@);
            &&& !joined ==> r is Err && r->Err_0@ == turned_away(state.db@, token.0, room_id@)
            &&& joined && found is None ==> r is Err && r->Err_0@ == ErrorView::NotFound
            &&& joined && found is Some ==> r is Ok && shows_event(r->Ok_0@, found->0)
        }),
{
}

/// Those who have joined a room, and only they, are shown the latest state event for a type and a key.
pub proof fn law_state_event_read<S: Storage>(
    state: &ServerState<S>,
    token: AccessToken,
    room_id: &str,
    ty: &str,
    key: &str,
    r: Result<Event, ErrorKind>,
)
    requires
        call_ensures(get_state_event_key::<S>, (state, token, room_id, ty, key), r)
            || call_ensures(get_state_event_inner::<S>, (state, token, room_id, ty, key), r) || (
        key@ == ""@ && call_ensures(get_state_event_no_key::<S>, (state, token, room_id, ty), r)),
        !db_failed(r),
    ensures
        ({
            let joined = has_joined(state.db@, state.config.domain@, token.0, room_id@);
            let found = latest_state(state.db@.rooms[room_id@].events, ty@, key@);
            &&& !joined ==> r is Err && r->Err_0@ == turned_away(state.db@, token.0, room_id@)
            &&& joined && found is None ==> r is Err && r->Err_0@ == ErrorView::NotFound
            &&& joined && found is Some ==> r is Ok && shows_event(r->Ok_0@, found->0)
        }),
{
}

/// Those who have joined a room are shown its current state, event by event. To those who stand to it in
/// another way nothing can be answered, and strangers are turned away.
pub proof fn law_state_read<S: Storage>(
    state: &ServerState<S>,
    token: AccessToken,
    room_id: &str,
    r: Result<Vec<Event>, ErrorKind>,
)
    requires
        call_ensures(get_state::<S>, (state, token, room_id), r),
        !db_failed(r),
    ensures
        ({
            let joined = has_joined(state.db@, state.config.domain@, token.0, room_id@);
            let known = current_state(state.db@.rooms[room_id@].events);
            let user = mxid_of(state.db@.tokens[token.0], state.config.domain@);
            &&& joined <==> r is Ok
            &&& joined ==> r->Ok_0@.len() == known.len() && forall|i: int|
                0 <= i < known.len() ==> shows_event((#[trigger] r->Ok_0@[i])@, known[i])
            &&& !joined && state.db@.tokens.contains_key(token.0) && state.db@.rooms.contains_key(
                room_id@,
            ) && membership_of(state.db@.rooms[room_id@].events, user) is Some ==> r->Err_0@
                == ErrorView::Unimplemented
            &&& !joined && !(state.db@.tokens.contains_key(token.0) && state.db@.rooms.contains_key(
                room_id@,
            ) && membership_of(state.db@.rooms[room_id@].events, user) is Some) ==> r->Err_0@
                == turned_away(state.db@, token.0, room_id@)
        }),
{
    let wanted = crate::client::room_events::state_answer(
        state.db@,
        state.config.domain@,
        token@,
        room_id@,
    );
    let access = crate::client::room_events::access_to(
        state.db@,
        state.config.domain@,
        token@,
        room_id@,
    );
    assert(access == Ok::<_, ErrorView>(Some(Membership::Join)) <==> has_joined(
        state.db@,
        state.config.domain@,
        token.0,
        room_id@,
    ));
    assert(wanted is Ok <==> access == Ok::<_, ErrorView>(Some(Membership::Join)));
    if r is Ok {
        let known = current_state(state.db@.rooms[room_id@].events);
        let shown = event_views(r->Ok_0@);
        assert(shown == crate::storage::client_events(known));
        assert(shown.len() == known.len());
        assert forall|i: int| 0 <= i < known.len() implies shows_event(
            (#[trigger] r->Ok_0@[i])@,
            known[i],
        ) by {
            assert(shown[i] == r->Ok_0@[i]@);
        }
    }
}

/// Whether an event makes someone a member in a way that is asked for.
pub open spec fn wanted_member(e: EventView, req: MembersRequest) -> bool {
    e.content matches ContentView::Member(m) && (req.membership matches Some(wanted)
        ==> m.membership == wanted) && (req.not_membership matches Some(unwanted) ==> m.membership
        != unwanted)
}

/// The members that are shown are those of the state that make someone a member in a way that is asked for,
/// in its order.
pub proof fn law_members_read<S: Storage>(
    state: &ServerState<S>,
    token: AccessToken,
    room_id: &str,
    req: MembersRequest,
    r: Result<MembersResponse, ErrorKind>,
    all: Result<Vec<Event>, ErrorKind>,
)
    requires
        call_ensures(get_members::<S>, (state, token, room_id, req), r),
        call_ensures(get_state::<S>, (state, token, room_id), all),
        !db_failed(r) && !db_failed(all),
    ensures
        r is Ok <==> all is Ok,
        r is Err ==> r->Err_0@ == all->Err_0@,
        r is Ok ==> event_views(r->Ok_0.chunk@) == event_views(all->Ok_0@).filter(
            |e: EventView| wanted_member(e, req),
        ),
{
    if r is Ok {
        lemma_members(event_views(all->Ok_0@), req);
    }
}

proof fn lemma_members(events: Seq<EventView>, req: MembersRequest)
    ensures
        crate::client::room_events::asked_members(events, req.membership, req.not_membership)
            == events.filter(|e: EventView| wanted_member(e, req)),
    decreases events.len(),
{
    reveal(Seq::filter);
    if events.len() > 0 {
        lemma_members(events.drop_last(), req);
    }
}

/// A state event that is sent stands at the end of the room as it was sent, under the name that is answered,
/// and nothing else is changed. Where it cannot be sent nothing is.
pub proof fn law_state_event_sent<S: Storage>(
    state: &mut ServerState<S>,
    token: AccessToken,
    room_id: &str,
    state_key: String,
    content: Result<EventContent, ContentFault>,
    now: i64,
    r: Result<Option<SendEventResponse>, ErrorKind>,
)
    requires
        call_ensures(
            send_state_event_at::<S>,
            (state, token, room_id, state_key, content, now),
            r,
        ),
        !db_failed(r),
    ensures
        r is Ok <==> old(state).db@.tokens.contains_key(token.0) && content is Ok
            && old(state).db@.rooms.contains_key(room_id@),
        !old(state).db@.tokens.contains_key(token.0) ==> r->Err_0@ == ErrorView::UnknownToken,
        !(r is Ok && r->Ok_0 is Some) ==> final(state).db@ == old(state).db@,
        r is Ok && r->Ok_0 is Some ==> ({
            let before = old(state).db@;
            let after = final(state).db@;
            let events = after.rooms[room_id@].events;
            let e = events.last();
            &&& events == before.rooms[room_id@].events.push(e)
            &&& e.id() == r->Ok_0->0.event_id@
            &&& e.pdu.content == content->Ok_0@
            &&& e.pdu.state_key == Some(state_key@)
            &&& e.pdu.sender == mxid_of(before.tokens[token.0], old(state).config.domain@)
            &&& e.pdu.room_id == room_id@
            &&& e.pdu.origin_server_ts == now
            &&& e.pdu.unsigned is None && e.pdu.redacts is None
            &&& latest_state(events, e.pdu.content.label(), state_key@) == Some(e)
            &&& after.rooms[room_id@].typing == before.rooms[room_id@].typing
            &&& after.rooms.remove(room_id@) == before.rooms.remove(room_id@)
            &&& after.users == before.users && after.tokens == before.tokens && after.txns
                == before.txns && after.batches == before.batches
        }),
{
    if r is Ok && r->Ok_0 is Some {
        let before = old(state).db@;
        let name = before.tokens[token.0];
        let event = NewEventView {
            content: content->Ok_0@,
            sender: mxid_of(name, old(state).config.domain@),
            state_key: Some(state_key@),
            redacts: None,
            unsigned: None,
        };
        let e = drafted(before.rooms, room_id@, event, now)->0;
        crate::storage::laws::law_event_added(before.rooms, e, room_id@);
        let events = final(state).db@.rooms[room_id@].events;
        assert(events.last() == e);
        assert(final(state).db@.rooms.remove(room_id@) =~= before.rooms.remove(room_id@));
    }
}

/// Who sends a state event reads it back: whoever has joined is then shown the content that was sent.
pub proof fn law_state_event_read_back<S: Storage>(
    state: &mut ServerState<S>,
    token: AccessToken,
    room_id: &str,
    state_key: String,
    content: Result<EventContent, ContentFault>,
    now: i64,
    r: Result<Option<SendEventResponse>, ErrorKind>,
    reader: AccessToken,
    ty: &str,
    key: &str,
    shown: Result<Event, ErrorKind>,
)
    requires
        call_ensures(
            send_state_event_at::<S>,
            (state, token, room_id, state_key, content, now),
            r,
        ),
        r is Ok && r->Ok_0 is Some,
        ty@ == content->Ok_0@.label(),
        key@ == state_key@,
        call_ensures(get_state_event_key::<S>, (&*final(state), reader, room_id, ty, key), shown),
        !db_failed(shown),
        has_joined(final(state).db@, final(state).config.domain@, reader.0, room_id@),
    ensures
        shown is Ok,
        shown->Ok_0@.content == content->Ok_0@,
        shown->Ok_0@.state_key == Some(state_key@),
        shown->Ok_0@.sender == mxid_of(
            old(state).db@.tokens[token.0],
            old(state).config.domain@,
        ),
{
    law_state_event_sent(state, token, room_id, state_key, content, now, r);
    law_state_event_read(&*final(state), reader, room_id, ty, key, shown);
}

/// A message is sent once for each transaction of a token: it stands at the end of the room as it was sent,
/// with the transaction noted beside it, and its sender has stopped typing. A transaction that is known is
/// refused, and a message that cannot be read leaves only the transaction behind.
pub proof fn law_message_sent<S: Storage>(
    state: &mut ServerState<S>,
    token: AccessToken,
    room_id: &str,
    txn_id: String,
    content: Result<EventContent, ContentFault>,
    now: i64,
    r: Result<Option<SendEventResponse>, ErrorKind>,
)
    requires
        call_ensures(send_event_at::<S>, (state, token, room_id, txn_id, content, now), r),
        !db_failed(r),
    ensures
        ({
            let before = old(state).db@;
            let after = final(state).db@;
            let user = mxid_of(before.tokens[token.0], old(state).config.domain@);
            let known = before.tokens.contains_key(token.0);
            let again = before.txns.contains((token.0, txn_id@));
            &&& r is Ok <==> known && !again && content is Ok && before.rooms.contains_key(room_id@)
            &&& !known ==> r->Err_0@ == ErrorView::UnknownToken && after == before
            &&& known && again ==> r->Err_0@ == ErrorView::TxnIdExists && after == before
            &&& known ==> after.txns == before.txns.insert((token.0, txn_id@))
            &&& known && !again && content is Ok && !before.rooms.contains_key(room_id@)
                ==> r->Err_0@ == ErrorView::RoomNotFound
            &&& r is Err ==> after.rooms == before.rooms
            &&& after.users == before.users && after.tokens == before.tokens && after.batches
                == before.batches
            &&& r is Ok ==> !after.rooms[room_id@].typing.contains_key(user)
                && after.rooms[room_id@].typing.remove(user)
                == before.rooms[room_id@].typing.remove(user)
            &&& r is Ok && r->Ok_0 is None ==> after.rooms[room_id@].events
                == before.rooms[room_id@].events
            &&& r is Ok && r->Ok_0 is Some ==> ({
                let events = after.rooms[room_id@].events;
                let e = events.last();
                &&& events == before.rooms[room_id@].events.push(e)
                &&& e.id() == r->Ok_0->0.event_id@
                &&& e.pdu.content == content->Ok_0@
                &&& e.pdu.state_key is None
                &&& e.pdu.sender == user
                &&& e.pdu.room_id == room_id@
                &&& e.pdu.origin_server_ts == now
                &&& e.pdu.redacts is None
                &&& e.pdu.unsigned is Some && member(e.pdu.unsigned->0, "transaction_id"@) == Some(
                    Json::Text(txn_id@),
                )
            })
            &&& r is Ok ==> after.rooms.remove(room_id@) == before.rooms.remove(room_id@)
        }),
{
    let before = old(state).db@;
    let after = final(state).db@;
    let user = mxid_of(before.tokens[token.0], old(state).config.domain@);
    if before.txns.contains((token.0, txn_id@)) {
        assert(before.txns.insert((token.0, txn_id@)) =~= before.txns);
    }
    if r is Ok {
        let recorded = crate::client::room_events::with_txn(before, token.0, txn_id@);
        let stopped = crate::client::room_events::stopped_typing(recorded, room_id@, user);
        let event = crate::client::room_events::timeline_event(content->Ok_0@, user, txn_id@);
        assert(stopped.rooms[room_id@].typing.remove(user) =~= before.rooms[room_id@].typing.remove(
            user,
        ));
        assert(stopped.rooms.remove(room_id@) =~= before.rooms.remove(room_id@));
        if r->Ok_0 is Some {
            let e = drafted(stopped.rooms, room_id@, event, now)->0;
            crate::storage::laws::law_event_added(stopped.rooms, e, room_id@);
            assert(after.rooms[room_id@].events.last() == e);
            assert(after.rooms.remove(room_id@) =~= stopped.rooms.remove(room_id@));
        }
    }
}

/// Whether a name and a password are those of a user.
pub open spec fn is_user(s: StorageView, name: Seq<char>, password: Seq<char>) -> bool {
    s.users.contains_key(name) && hash_accepts(
        s.users[name].password_hash,
        encode_utf8(password),
    ) == Some(true)
}

/// Users log in with their password and their name, or the identifier that it is part of, and get a token that
/// is theirs, the device that they name, and nothing else is changed. Anyone else is refused.
pub proof fn law_logged_in<S: Storage>(
    state: &mut ServerState<S>,
    req: LoginRequest,
    number: u32,
    r: Result<LoginResponse, ErrorKind>,
    name: Seq<char>,
)
    requires
        call_ensures(login_with::<S>, (state, req, number), r),
        !db_failed(r),
        req.identifier matches Identifier::Username { user } ==> (mxid_verdict(user@) is Ok && name
            == localpart_of(user@)) || (mxid_verdict(user@) is Err && name == user@),
    ensures
        r is Ok <==> (req.identifier is Username && req.password is Some && is_user(
            old(state).db@,
            name,
            req.password->0@,
        )),
        r is Err ==> final(state).db@ == old(state).db@,
        r is Err && req.identifier is Username && req.password is Some ==> r->Err_0@
            == ErrorView::Forbidden,
        !(req.identifier is Username) || req.password is None ==> r->Err_0@
            == ErrorView::Unimplemented,
        r is Ok ==> ({
            let token = uuid_parsed(r->Ok_0.access_token@);
            &&& token is Some && r->Ok_0.access_token@ == uuid_text(token->0)
            &&& final(state).db@.tokens == old(state).db@.tokens.insert(token->0, name)
            &&& r->Ok_0.user_id@ == mxid_of(name, old(state).config.domain@)
            &&& r->Ok_0.home_server@ == old(state).config.domain@
            &&& req.device_id is Some ==> r->Ok_0.device_id@ == req.device_id->0@
            &&& req.device_id is None ==> r->Ok_0.device_id@ == crate::text::hex_padded(
                number as nat,
                8,
                true,
            )
            &&& final(state).db@.users == old(state).db@.users && final(state).db@.rooms
                == old(state).db@.rooms && final(state).db@.txns == old(state).db@.txns
                && final(state).db@.batches == old(state).db@.batches
        }),
{
}

/// To log out takes away the token, and only that; to log out everywhere, all tokens of its user.
pub proof fn law_logged_out<S: Storage>(
    state: &mut ServerState<S>,
    token: AccessToken,
    r: Result<(), ErrorKind>,
    other: u128,
)
    requires
        call_ensures(logout::<S>, (state, token), r),
        r is Ok,
    ensures
        !final(state).db@.tokens.contains_key(token.0),
        other != token.0 ==> final(state).db@.tokens.contains_key(other)
            == old(state).db@.tokens.contains_key(other) && final(state).db@.tokens[other]
            == old(state).db@.tokens[other],
        final(state).db@.users == old(state).db@.users && final(state).db@.rooms
            == old(state).db@.rooms && final(state).db@.txns == old(state).db@.txns
            && final(state).db@.batches == old(state).db@.batches,
{
}

/// To log out everywhere takes away all tokens of the user, and none of anyone else.
pub proof fn law_logged_out_of_all<S: Storage>(
    state: &mut ServerState<S>,
    token: AccessToken,
    r: Result<(), ErrorKind>,
    other: u128,
)
    requires
        call_ensures(logout_all::<S>, (state, token), r),
        r is Ok,
    ensures
        ({
            let before = old(state).db@.tokens;
            let after = final(state).db@.tokens;
            &&& after.contains_key(other) <==> before.contains_key(other) && !(before.contains_key(
                token.0,
            ) && before[other] == before[token.0])
            &&& after.contains_key(other) ==> after[other] == before[other]
        }),
        final(state).db@.users == old(state).db@.users && final(state).db@.rooms
            == old(state).db@.rooms && final(state).db@.txns == old(state).db@.txns
            && final(state).db@.batches == old(state).db@.batches,
{
}

/// A user who registers is made with their password and no profile, and unless they are to log in later has a
/// token. A name that is taken or cannot be one is refused, and then nothing is changed.
pub proof fn law_registered<S: Storage>(
    state: &mut ServerState<S>,
    req: RegisterRequest,
    query: &str,
    number: u32,
    r: Result<JsonValue, ErrorKind>,
)
    requires
        call_ensures(register_with::<S>, (state, req, query, number), r),
        !db_failed(r),
    ensures
        ({
            let before = old(state).db@;
            let after = final(state).db@;
            let name = req.username@;
            let domain = old(state).config.domain@;
            &&& r is Err ==> after == before
            &&& query@ == "kind=user"@ && parts_verdict(name, domain) is Ok
                && before.users.contains_key(name) ==> r is Err && r->Err_0@
                == ErrorView::UsernameTaken
            &&& query@ == "kind=user"@ && parts_verdict(name, domain) is Err ==> r is Err
                && r->Err_0@ is BadJson
            &&& query@ == "kind=guest"@ ==> r is Err && r->Err_0@ == ErrorView::Unimplemented
            &&& query@.len() == 0 ==> r is Err && r->Err_0@ == ErrorView::MissingParam("kind"@)
            &&& "kind="@.is_prefix_of(query@) && !query@.contains('&') && query@ != "kind=user"@
                && query@ != "kind=guest"@ ==> r is Err && r->Err_0@ == ErrorView::InvalidParam(
                query@,
            )
            &&& query@ == "kind=user"@ && parts_verdict(name, domain) is Ok
                && !before.users.contains_key(name) && encode_utf8(req.password@).len() <= u32::MAX
                ==> r is Ok
            &&& r is Ok ==> {
                &&& !before.users.contains_key(name) && parts_verdict(name, domain) is Ok
                &&& is_user(after, name, req.password@)
                &&& after.users[name].profile.displayname is None
                    && after.users[name].profile.avatar_url is None
                &&& after.users.remove(name) == before.users.remove(name)
                &&& after.rooms == before.rooms && after.txns == before.txns && after.batches
                    == before.batches
                &&& req.inhibit_login ==> after.tokens == before.tokens && member(
                    r->Ok_0@,
                    "access_token"@,
                ) is None && member(r->Ok_0@, "user_id"@) == Some(Json::Text(name))
                &&& !req.inhibit_login ==> member(r->Ok_0@, "user_id"@) == Some(
                    Json::Text(mxid_of(name, domain)),
                ) && (exists|token: u128|
                    after.tokens == before.tokens.insert(token, name) && member(
                        r->Ok_0@,
                        "access_token"@,
                    ) == Some(Json::Text(#[trigger] uuid_text(token)))) && (req.device_id is Some
                    ==> member(r->Ok_0@, "device_id"@) == Some(Json::Text(req.device_id->0@)))
            }
        }),
{
    let before = old(state).db@;
    let after = final(state).db@;
    let name = req.username@;
    let domain = old(state).config.domain@;
    lemma_answer_names();
    lemma_kind(query@);
    if r is Ok {
        let (hash, token) = choose|hash: Seq<char>, token: u128| #[trigger]
            crate::client::auth::registered(
                before,
                after,
                domain,
                req,
                number,
                r->Ok_0@,
                hash,
                token,
            );
        assert(after.users.remove(name) =~= before.users.remove(name));
        if !req.inhibit_login {
            assert(member(r->Ok_0@, "access_token"@) == Some(Json::Text(uuid_text(token))));
        }
    }
}

proof fn lemma_answer_names()
    ensures
        "user_id"@.len() == 7,
        "access_token"@.len() == 12,
        "device_id"@.len() == 9,
{
    reveal_strlit("user_id");
    reveal_strlit("access_token");
    reveal_strlit("device_id");
}

proof fn lemma_kind(query: Seq<char>)
    ensures
        query == "kind=user"@ ==> crate::client::auth::kind_verdict(query) is Ok,
        query == "kind=guest"@ ==> crate::client::auth::kind_verdict(query) == Err::<(), _>(
            ErrorView::Unimplemented,
        ),
        query.len() == 0 ==> crate::client::auth::kind_verdict(query) == Err::<(), _>(
            ErrorView::MissingParam("kind"@),
        ),
        "kind="@.is_prefix_of(query) && !query.contains('&') && query != "kind=user"@ && query
            != "kind=guest"@ ==> crate::client::auth::kind_verdict(query) == Err::<(), _>(
            ErrorView::InvalidParam(query),
        ),
{
    reveal_strlit("kind=user");
    reveal_strlit("kind=guest");
    reveal_strlit("kind=");
    if query == "kind=user"@ || query == "kind=guest"@ {
        assert(!query.contains('&'));
        assert(crate::text::parts(query, '&') =~= seq![query]);
        assert(query.take(5) =~= "kind="@);
        assert(crate::text::first_with(seq![query], "kind="@) == Some(query));
        assert("kind=user"@.len() != "kind=guest"@.len());
    }
    if query.len() == 0 {
        assert(!query.contains('&'));
        assert(crate::text::parts(query, '&') =~= seq![query]);
        assert(seq![query].drop_first() =~= Seq::<Seq<char>>::empty());
        assert(!crate::text::begins(query, "kind="@));
        reveal_with_fuel(crate::text::first_with, 2);
        assert(crate::text::first_with(seq![query], "kind="@) is None);
    }
    if "kind="@.is_prefix_of(query) && !query.contains('&') {
        assert(crate::text::parts(query, '&') =~= seq![query]);
        assert(query.take(5) =~= "kind="@);
        assert(crate::text::first_with(seq![query], "kind="@) == Some(query));
    }
}

/// The token of a request stands behind `Bearer` in its header, and only without a header in the query string,
/// behind `access_token`. Without either it is missing, and what is no token is not known.
pub proof fn law_token_read(header: Seq<char>, query: Option<Seq<char>>)
    ensures
        !"Bearer "@.is_prefix_of(header) ==> token_of(Some(Some(header)), query) == Err::<u128, _>(
            ErrorView::MissingToken,
        ),
        token_of(Some(None), query) == Err::<u128, _>(ErrorView::MissingToken),
        token_of(None, None) == Err::<u128, _>(ErrorView::MissingToken),
        token_of(Some(Some(header)), query) == token_of(Some(Some(header)), None),
        "Bearer "@.is_prefix_of(header) && uuid_parsed(
            crate::text::trimmed(header, "Bearer "@),
        ) is None ==> token_of(Some(Some(header)), query) == Err::<u128, _>(ErrorView::UnknownToken),
{
    let prefix = "Bearer "@;
    if prefix.is_prefix_of(header) {
        assert(header.take(prefix.len() as int) =~= prefix);
    }
    if crate::text::begins(header, prefix) {
        assert(prefix =~= header.subrange(0, prefix.len() as int));
    }
}

/// A token is read from a request in that way.
pub proof fn law_token_asked(
    header: Option<Option<&str>>,
    query: Option<&str>,
    r: Result<AccessToken, ErrorKind>,
)
    requires
        call_ensures(AccessToken::from_request, (header, query), r),
    ensures
        ({
            let written = match header {
                Some(Some(h)) => Some(Some(h@)),
                Some(None) => Some(None),
                None => None,
            };
            let asked = match query {
                Some(q) => Some(q@),
                None => None,
            };
            match r {
                Ok(token) => token_of(written, asked) == Ok::<_, ErrorView>(token.0),
                Err(e) => token_of(written, asked) == Err::<u128, _>(e@),
            }
        }),
{
}

/// What a user sets of their profile is what is then shown of it, and only they set it.
pub proof fn law_picture_set<S: Storage>(
    state: &mut ServerState<S>,
    token: AccessToken,
    id: &MatrixId,
    body: &JsonValue,
    r: Result<(), ErrorKind>,
    shown: Result<JsonValue, ErrorKind>,
)
    requires
        call_ensures(set_avatar_url::<S>, (state, token, id, body), r),
        !db_failed(r),
        call_ensures(get_avatar_url::<S>, (&*final(state), id), shown),
        !db_failed(shown),
        final(state).config == old(state).config,
    ensures
        ({
            let before = old(state).db@;
            let name = localpart_of(id@);
            let own = before.tokens.contains_key(token.0) && before.tokens[token.0] == name
                && domain_of(id@) == old(state).config.domain@;
            &&& r is Ok <==> own && (member(body@, "avatar_url"@) matches Some(Json::Text(_)))
            &&& r is Err ==> final(state).db@ == before
            &&& r is Ok ==> shown is Ok && member(shown->Ok_0@, "avatar_url"@) == member(
                body@,
                "avatar_url"@,
            )
            &&& r is Ok ==> final(state).db@.users[name].profile.displayname
                == before.users[name].profile.displayname
            &&& r is Ok ==> final(state).db@.users.remove(name) == before.users.remove(name)
            &&& r is Ok ==> final(state).db@.users[name].password_hash
                == before.users[name].password_hash
            &&& final(state).db@.rooms == before.rooms && final(state).db@.tokens == before.tokens
            &&& !before.tokens.contains_key(token.0) ==> r->Err_0@ == ErrorView::UnknownToken
            &&& before.tokens.contains_key(token.0) && before.tokens[token.0] != name ==> r->Err_0@
                == ErrorView::Forbidden
        }),
{
    if r is Ok {
        let name = localpart_of(id@);
        assert(final(state).db@.users.remove(name) =~= old(state).db@.users.remove(name));
    }
}

/// The name that a user sets is the one that is then shown, and only they set it.
pub proof fn law_name_set<S: Storage>(
    state: &mut ServerState<S>,
    token: AccessToken,
    id: &MatrixId,
    body: &JsonValue,
    r: Result<(), ErrorKind>,
    shown: Result<JsonValue, ErrorKind>,
)
    requires
        call_ensures(set_display_name::<S>, (state, token, id, body), r),
        !db_failed(r),
        call_ensures(get_display_name::<S>, (&*final(state), id), shown),
        !db_failed(shown),
        final(state).config == old(state).config,
    ensures
        ({
            let before = old(state).db@;
            let name = localpart_of(id@);
            let own = before.tokens.contains_key(token.0) && before.tokens[token.0] == name
                && domain_of(id@) == old(state).config.domain@;
            &&& r is Ok <==> own && (member(body@, "displayname"@) matches Some(Json::Text(_)))
            &&& r is Err ==> final(state).db@ == before
            &&& r is Ok ==> shown is Ok && member(shown->Ok_0@, "displayname"@) == member(
                body@,
                "displayname"@,
            )
            &&& r is Ok ==> final(state).db@.users[name].profile.avatar_url
                == before.users[name].profile.avatar_url
            &&& r is Ok ==> final(state).db@.users.remove(name) == before.users.remove(name)
            &&& r is Ok ==> final(state).db@.users[name].password_hash
                == before.users[name].password_hash
            &&& final(state).db@.rooms == before.rooms && final(state).db@.tokens == before.tokens
            &&& !before.tokens.contains_key(token.0) ==> r->Err_0@ == ErrorView::UnknownToken
            &&& before.tokens.contains_key(token.0) && before.tokens[token.0] != name ==> r->Err_0@
                == ErrorView::Forbidden
        }),
{
    if r is Ok {
        let name = localpart_of(id@);
        assert(final(state).db@.users.remove(name) =~= old(state).db@.users.remove(name));
    }
}

/// Of a user of this server the picture and the name are shown as they are kept, and what is not there is not
/// found. Of users of other servers nothing is known.
pub proof fn law_profile_shown<S: Storage>(
    state: &ServerState<S>,
    id: &MatrixId,
    picture: Result<JsonValue, ErrorKind>,
    shown_name: Result<JsonValue, ErrorKind>,
    both: Result<JsonValue, ErrorKind>,
)
    requires
        call_ensures(get_avatar_url::<S>, (state, id), picture),
        call_ensures(get_display_name::<S>, (state, id), shown_name),
        call_ensures(get_profile::<S>, (state, id), both),
        !db_failed(picture) && !db_failed(shown_name) && !db_failed(both),
    ensures
        ({
            let profile = state.db@.users[localpart_of(id@)].profile;
            let ours = domain_of(id@) == state.config.domain@;
            &&& picture is Ok <==> ours && profile.avatar_url is Some
            &&& picture is Ok ==> member(picture->Ok_0@, "avatar_url"@) == text_member(
                profile.avatar_url,
            )
            &&& ours && picture is Err ==> picture->Err_0@ == ErrorView::NotFound
            &&& shown_name is Ok <==> ours && profile.displayname is Some
            &&& shown_name is Ok ==> member(shown_name->Ok_0@, "displayname"@) == text_member(
                profile.displayname,
            )
            &&& ours && shown_name is Err ==> shown_name->Err_0@ == ErrorView::NotFound
            &&& both is Ok <==> ours
            &&& both is Ok ==> member(both->Ok_0@, "avatar_url"@) == text_member(
                profile.avatar_url,
            ) && member(both->Ok_0@, "displayname"@) == text_member(profile.displayname)
            &&& !ours ==> picture->Err_0@ == ErrorView::Unimplemented && shown_name->Err_0@
                is Unknown && both->Err_0@ is Unknown
        }),
{
    reveal_strlit("avatar_url");
    reveal_strlit("displayname");
    assert("avatar_url"@.len() != "displayname"@.len());
}

/// A search finds the user with that very name, under their profile, and nobody else.
pub proof fn law_user_found<S: Storage>(
    state: &ServerState<S>,
    req: UserDirSearchRequest,
    r: Result<UserDirSearchResponse, ErrorKind>,
)
    requires
        call_ensures(search_user_directory::<S>, (state, req), r),
        !db_failed(r),
    ensures
        ({
            let name = req.search_term@;
            &&& r is Ok <==> parts_verdict(name, state.config.domain@) is Ok
            &&& r is Ok && !state.db@.users.contains_key(name) ==> r->Ok_0.results@.len() == 0
            &&& r is Ok && state.db@.users.contains_key(name) ==> r->Ok_0.results@.len() == 1
                && r->Ok_0.results@[0].user_id@ == mxid_of(name, state.config.domain@)
                && crate::text::text_opt(r->Ok_0.results@[0].display_name)
                == state.db@.users[name].profile.displayname && crate::text::text_opt(
                r->Ok_0.results@[0].avatar_url,
            ) == state.db@.users[name].profile.avatar_url
            &&& r is Ok ==> !r->Ok_0.limited
        }),
{
}

/// Users say of themselves, and of nobody else, that they are typing, and for how long.
pub proof fn law_typing_said<S: Storage>(
    state: &mut ServerState<S>,
    token: AccessToken,
    room_id: &str,
    id: &MatrixId,
    req: TypingRequest,
    now: u64,
    r: Result<(), ErrorKind>,
    other: Seq<char>,
)
    requires
        call_ensures(typing::<S>, (state, token, room_id, id, req, now), r),
        !db_failed(r),
    ensures
        ({
            let before = old(state).db@;
            let after = final(state).db@;
            let own = before.tokens.contains_key(token.0) && before.tokens[token.0] == localpart_of(
                id@,
            ) && domain_of(id@) == old(state).config.domain@;
            &&& r is Ok <==> own && before.rooms.contains_key(room_id@)
            &&& !own ==> r->Err_0@ == ErrorView::Forbidden
            &&& own && r is Err ==> r->Err_0@ == ErrorView::RoomNotFound
            &&& r is Err ==> after == before
            &&& r is Ok ==> {
                let typing_now = after.rooms[room_id@].typing;
                &&& typing_now.contains_key(id@) == req.typing
                &&& req.typing && now + req.timeout <= u64::MAX ==> typing_now[id@] == now
                    + req.timeout
                &&& other != id@ ==> typing_now.contains_key(other)
                    == before.rooms[room_id@].typing.contains_key(other) && typing_now[other]
                    == before.rooms[room_id@].typing[other]
                &&& after.rooms[room_id@].events == before.rooms[room_id@].events
                &&& after.rooms[room_id@].ephemeral == before.rooms[room_id@].ephemeral
                &&& after.rooms.remove(room_id@) == before.rooms.remove(room_id@)
                &&& after.users == before.users && after.tokens == before.tokens
            }
        }),
{
    if r is Ok {
        assert(final(state).db@.rooms.remove(room_id@) =~= old(state).db@.rooms.remove(room_id@));
    }
}

/// A token belongs to the user for whom it was made.
pub proof fn law_caller<S: Storage>(
    state: &ServerState<S>,
    token: u128,
    name: Result<String, ErrorKind>,
    both: Result<(String, MatrixId), ErrorKind>,
)
    requires
        call_ensures(ServerState::<S>::authenticate, (state, token), name),
        call_ensures(ServerState::<S>::identify, (state, token), both),
        !db_failed(name) && !db_failed(both),
    ensures
        name is Ok <==> state.db@.tokens.contains_key(token),
        both is Ok <==> state.db@.tokens.contains_key(token),
        name is Ok ==> name->Ok_0@ == state.db@.tokens[token],
        both is Ok ==> both->Ok_0.0@ == state.db@.tokens[token] && both->Ok_0.1@ == mxid_of(
            state.db@.tokens[token],
            state.config.domain@,
        ),
        name is Err ==> name->Err_0@ == ErrorView::UnknownToken,
        both is Err ==> both->Err_0@ == ErrorView::UnknownToken,
{
}

/// Clients are told of the one way to log in and of the one version.
pub proof fn law_told_at_start(flows: JsonValue, versions: JsonValue)
    requires
        call_ensures(crate::client::auth::get_supported_login_types, (), flows),
        call_ensures(crate::client::versions, (), versions),
    ensures
        member(flows@, "flows"@) is Some,
        member(flows@, "flows"@)->0 is Array,
        member(flows@, "flows"@)->0->Array_0.len() == 1,
        member(member(flows@, "flows"@)->0->Array_0[0], "type"@) == Some(
            Json::Text("m.login.password"@),
        ),
        crate::events::laws::lists(member(versions@, "versions"@), seq!["r0.6.0"@]),
{
}

} // verus!
