//! What a new room is like.
use crate::client::auth::AccessToken;
use crate::client::room::{
    chained, common_drafts, create_room_with, creates_room, directness, first_fault, invite_at,
    invite_drafts, join_by_id_or_alias_at, joins, law_room_created, lemma_chained, link,
    makes_member, name_drafts, name_room, room_drafts, room_id_of, setup_drafts, topic_drafts,
    CreateRoomRequest, DraftView, InviteRequest, Preset, RoomVisibility,
};
use crate::client_api::room::{added, sent};
use crate::error::{ErrorKind, ErrorView};
use crate::events::laws::member;
use crate::events::pdu::StoredView;
use crate::events::room::{GuestAccessType, HistoryVisibilityType, JoinRule, Membership};
use crate::events::ContentView;
use crate::events::room_version::v4::{PduView, UnhashedView};
use crate::json::{canonical_json, Json, JsonValue};
use crate::server::{caller_of, ServerState};
use crate::storage::{
    add_one, db_failed, is_state_of, latest_state, membership_of, ProfileView, RoomView, Storage,
    StorageView,
};
use crate::util::mxid::{localpart_of, mxid_of};
use crate::util::storage::{drafted, drafted_first};
use vstd::prelude::*;

verus! {

/// Whether the creation of a room came to a room.
pub open spec fn came_about(
    r: Result<Option<JsonValue>, ErrorKind>,
    before: StorageView,
    after: StorageView,
    domain: Seq<char>,
    token: u128,
    req: CreateRoomRequest,
    number: u64,
    now: i64,
    name: Seq<char>,
) -> bool {
    &&& creates_room(r, before, after, domain, token, req, number, now)
    &&& r is Ok && r->Ok_0 is Some
    &&& caller_of(before, token) == Ok::<Seq<char>, ErrorView>(name)
    &&& req.initial_state matches Some(list) ==> forall|i: int|
        0 <= i < list@.len() ==> !((#[trigger] list@[i])@.content matches Ok(ContentView::Create(_)))
}

/// The history of the room that was created.
pub open spec fn history(after: StorageView, number: u64, domain: Seq<char>) -> Seq<StoredView> {
    after.rooms[room_id_of(number, domain)].events
}

/// How many further state events a new room is to have.
pub open spec fn initial_count(req: CreateRoomRequest) -> int {
    match req.initial_state {
        Some(list) => list@.len() as int,
        None => 0,
    }
}

/// Whether a further state event that a new room is to have takes the place of another.
pub open spec fn replaced(req: CreateRoomRequest, ty: Seq<char>, key: Seq<char>) -> bool {
    req.initial_state matches Some(list) && exists|i: int|
        0 <= i < list@.len() && (#[trigger] list@[i])@.state_key == key && (list@[i]@.content
            matches Ok(content) && content.label() == ty)
}

proof fn lemma_no_fault(drafts: Seq<DraftView>)
    requires
        first_fault(drafts) is None,
    ensures
        forall|i: int| 0 <= i < drafts.len() ==> (#[trigger] drafts[i]).content is Ok,
    decreases drafts.len(),
{
    if drafts.len() > 0 {
        lemma_no_fault(drafts.drop_first());
        assert forall|i: int| 0 <= i < drafts.len() implies (
        #[trigger] drafts[i]).content is Ok by {
            if i > 0 {
                assert(drafts.drop_first()[i - 1] == drafts[i]);
            }
        }
    }
}

proof fn lemma_links(
    drafts: Seq<DraftView>,
    room: Seq<char>,
    sender: Seq<char>,
    domain: Seq<char>,
    now: i64,
    i: int,
)
    requires
        chained(drafts, room, sender, domain, now) is Some,
        0 <= i < drafts.len(),
    ensures
        ({
            let events = chained(drafts, room, sender, domain, now)->0;
            &&& events.len() == drafts.len()
            &&& events[i].passed
            &&& link(
                events.take(i),
                drafts[i].content->Ok_0,
                drafts[i].state_key,
                room,
                sender,
                domain,
                now,
            ).finalized() == Some(events[i].pdu)
        }),
    decreases drafts.len(),
{
    lemma_chained(drafts, room, sender, domain, now);
    lemma_chained(drafts.drop_last(), room, sender, domain, now);
    let before = chained(drafts.drop_last(), room, sender, domain, now)->0;
    let events = chained(drafts, room, sender, domain, now)->0;
    assert(events =~= before.push(events.last()));
    if i < drafts.len() - 1 {
        lemma_links(drafts.drop_last(), room, sender, domain, now, i);
        assert(events[i] == before[i]);
        assert(events.take(i) =~= before.take(i));
    } else {
        assert(events.take(i) =~= before);
    }
}

/// What stands at each place of the history of a new room.
proof fn lemma_history(
    r: Result<Option<JsonValue>, ErrorKind>,
    before: StorageView,
    after: StorageView,
    domain: Seq<char>,
    token: u128,
    req: CreateRoomRequest,
    number: u64,
    now: i64,
    name: Seq<char>,
) -> (drafts: Seq<DraftView>)
    requires
        came_about(r, before, after, domain, token, req, number, now, name),
    ensures
        ({
            let room = room_id_of(number, domain);
            let user = mxid_of(name, domain);
            let events = history(after, number, domain);
            &&& drafts == room_drafts(req, user, before.users[name].profile)
            &&& chained(drafts, room, user, domain, now) == Some(events)
            &&& events.len() == drafts.len()
            &&& after == (StorageView {
                rooms: before.rooms.insert(
                    room,
                    RoomView { events, ephemeral: Map::empty(), typing: Map::empty() },
                ),
                ..before
            })
            &&& forall|i: int|
                0 <= i < drafts.len() ==> (#[trigger] drafts[i]).content is Ok
                    && events[i].pdu.content == drafts[i].content->Ok_0 && events[i].pdu.state_key
                    == Some(drafts[i].state_key)
        }),
{
    let room = room_id_of(number, domain);
    let user = mxid_of(name, domain);
    let profile = before.users[name].profile;
    let drafts = room_drafts(req, user, profile);
    lemma_no_fault(drafts);
    let events = chained(drafts, room, user, domain, now)->0;
    lemma_chained(drafts, room, user, domain, now);
    lemma_places(req, user, profile);
    assert forall|i: int| 0 <= i < events.len() implies ((
    #[trigger] events[i]).pdu.content is Create <==> i == 0) by {
        assert(drafts[i].content is Ok);
        assert(events[i].pdu.content == drafts[i].content->Ok_0);
        let n = initial_count(req);
        if 6 <= i < 6 + n {
            assert(drafts[i] == req.initial_state->0@[i - 6]@);
        }
    }
    law_room_created(before.rooms, events, room);
    drafts
}

/// Where the drafts stand.
proof fn lemma_places(req: CreateRoomRequest, user: Seq<char>, profile: ProfileView)
    ensures
        ({
            let drafts = room_drafts(req, user, profile);
            let direct = directness(req.is_direct);
            let n = initial_count(req);
            let m = n + name_drafts(req.name).len();
            let k = m + topic_drafts(req.topic).len();
            &&& drafts.len() == 6 + k + invite_drafts(req.invite, direct).len()
            &&& drafts[0] == crate::client::room::create_draft(req, user)
            &&& forall|i: int|
                1 <= i < 6 ==> #[trigger] drafts[i] == common_drafts(
                    req,
                    user,
                    profile,
                    direct,
                )[i - 1]
            &&& forall|i: int|
                6 <= i < 6 + n ==> #[trigger] drafts[i] == req.initial_state->0@[i - 6]@
            &&& forall|i: int|
                6 + n <= i < 6 + m ==> #[trigger] drafts[i] == name_drafts(req.name)[i - 6 - n]
            &&& forall|i: int|
                6 + m <= i < 6 + k ==> #[trigger] drafts[i] == topic_drafts(req.topic)[i - 6 - m]
            &&& forall|i: int|
                6 + k <= i < drafts.len() ==> #[trigger] drafts[i] == invite_drafts(
                    req.invite,
                    direct,
                )[i - 6 - k]
        }),
{
}

proof fn lemma_latest(events: Seq<StoredView>, ty: Seq<char>, key: Seq<char>, at: int)
    requires
        0 <= at < events.len(),
        is_state_of(events[at], ty, key),
        forall|i: int| at < i < events.len() ==> !is_state_of(#[trigger] events[i], ty, key),
    ensures
        latest_state(events, ty, key) == Some(events[at]),
    decreases events.len(),
{
    if at < events.len() - 1 {
        assert(!is_state_of(events[events.len() - 1], ty, key));
        let rest = events.drop_last();
        assert(rest[at] == events[at]);
        assert forall|i: int| at < i < rest.len() implies !is_state_of(
            #[trigger] rest[i],
            ty,
            key,
        ) by {
            assert(rest[i] == events[i]);
        }
        lemma_latest(rest, ty, key, at);
    }
}

/// Whoever asks for a room is told its name, made of a number and the domain. The room is there, in place
/// of any that had that name, nobody is typing in it, and all else is as it was.
pub proof fn law_room_answered(
    r: Result<Option<JsonValue>, ErrorKind>,
    before: StorageView,
    after: StorageView,
    domain: Seq<char>,
    token: u128,
    req: CreateRoomRequest,
    number: u64,
    now: i64,
    name: Seq<char>,
    other: Seq<char>,
)
    requires
        came_about(r, before, after, domain, token, req, number, now, name),
    ensures
        ({
            let room = room_id_of(number, domain);
            &&& member(r->Ok_0->0@, "room_id"@) == Some(Json::Text(room))
            &&& room.len() == 18 + domain.len() && room[0] == '!' && room[17] == ':' && room.skip(18)
                == domain
            &&& after.rooms.contains_key(room)
            &&& after.rooms[room].ephemeral == Map::<Seq<char>, Json>::empty()
            &&& after.rooms[room].typing == Map::<Seq<char>, u64>::empty()
            &&& other != room ==> after.rooms.contains_key(other) == before.rooms.contains_key(other)
                && after.rooms[other] == before.rooms[other]
            &&& after.users == before.users && after.tokens == before.tokens && after.txns
                == before.txns && after.batches == before.batches
        }),
{
    let drafts = lemma_history(r, before, after, domain, token, req, number, now, name);
    let room = room_id_of(number, domain);
    crate::text::lemma_hex_bytes(number as nat, 16, true);
    assert(room.skip(18) =~= domain);
}

/// Each event of a new room is sent by its creator at the time of the creation from the domain, was
/// allowed, follows the event before it, lies as deep as it stands, and from the fourth on cites the third,
/// which sets the power levels.
pub proof fn law_room_history(
    r: Result<Option<JsonValue>, ErrorKind>,
    before: StorageView,
    after: StorageView,
    domain: Seq<char>,
    token: u128,
    req: CreateRoomRequest,
    number: u64,
    now: i64,
    name: Seq<char>,
    i: int,
)
    requires
        came_about(r, before, after, domain, token, req, number, now, name),
        0 <= i < history(after, number, domain).len() <= i64::MAX,
    ensures
        ({
            let events = history(after, number, domain);
            let e = events[i];
            &&& e.passed
            &&& e.pdu.room_id == room_id_of(number, domain)
            &&& e.pdu.sender == mxid_of(name, domain)
            &&& e.pdu.origin == domain
            &&& e.pdu.origin_server_ts == now
            &&& e.pdu.unsigned is None && e.pdu.redacts is None
            &&& e.pdu.depth == i
            &&& e.pdu.state_key is Some
            &&& i == 0 ==> e.pdu.prev_events.len() == 0
            &&& i > 0 ==> e.pdu.prev_events == seq![events[i - 1].id()]
            &&& i < 3 ==> e.pdu.auth_events.len() == 0
            &&& i >= 3 ==> e.pdu.auth_events == seq![events[2].id()]
            &&& events.len() > 2 && events[2].pdu.content is PowerLevels
        }),
{
    let drafts = lemma_history(r, before, after, domain, token, req, number, now, name);
    let room = room_id_of(number, domain);
    let user = mxid_of(name, domain);
    lemma_places(req, user, before.users[name].profile);
    lemma_links(drafts, room, user, domain, now, i);
    let events = history(after, number, domain);
    if i > 0 {
        assert(events.take(i).last() == events[i - 1]);
    }
    if i >= 3 {
        assert(events.take(i)[2] == events[2]);
    }
    assert(drafts[2].content is Ok);
    assert(events[2].pdu.content == drafts[2].content->Ok_0);
}

/// A new room begins with the event that names its creator, the version and what else the creator wants
/// said, and with the creator joining under their profile.
pub proof fn law_room_begins(
    r: Result<Option<JsonValue>, ErrorKind>,
    before: StorageView,
    after: StorageView,
    domain: Seq<char>,
    token: u128,
    req: CreateRoomRequest,
    number: u64,
    now: i64,
    name: Seq<char>,
)
    requires
        came_about(r, before, after, domain, token, req, number, now, name),
    ensures
        ({
            let events = history(after, number, domain);
            let user = mxid_of(name, domain);
            &&& events.len() >= 6
            &&& events[0].pdu.state_key == Some(""@)
            &&& events[0].pdu.content matches ContentView::Create(c) && c.creator == user
                && c.room_version == Some("4"@) && c.predecessor is None && (
            req.creation_content matches Some(extra) ==> c.extra == extra@) && (
            req.creation_content is None ==> c.extra == Map::<Seq<char>, Json>::empty())
            &&& events[1].pdu.state_key == Some(user)
            &&& events[1].pdu.content matches ContentView::Member(m) && m.membership
                == Membership::Join && m.displayname == before.users[name].profile.displayname
                && m.avatar_url == before.users[name].profile.avatar_url && m.is_direct == Some(
                req.is_direct == Some(true),
            )
        }),
{
    let drafts = lemma_history(r, before, after, domain, token, req, number, now, name);
    lemma_places(req, mxid_of(name, domain), before.users[name].profile);
    assert(drafts[0].content is Ok && drafts[1].content is Ok);
}

/// Whether a new room is public.
pub open spec fn is_public(req: CreateRoomRequest) -> bool {
    req.preset == Some(Preset::PublicChat) || (req.preset is None && req.visibility
        == RoomVisibility::Public)
}

/// The rules of a new room go by what was asked for: a public one is open to all but guests, any other to
/// those who are invited and to guests. Its history is shared. The power levels are those that were asked
/// for. Only a further event that was asked for changes this.
pub proof fn law_room_rules(
    r: Result<Option<JsonValue>, ErrorKind>,
    before: StorageView,
    after: StorageView,
    domain: Seq<char>,
    token: u128,
    req: CreateRoomRequest,
    number: u64,
    now: i64,
    name: Seq<char>,
)
    requires
        came_about(r, before, after, domain, token, req, number, now, name),
    ensures
        ({
            let events = history(after, number, domain);
            &&& !replaced(req, "m.room.join_rules"@, ""@) ==> (latest_state(
                events,
                "m.room.join_rules"@,
                ""@,
            ) matches Some(e) && e.pdu.content matches ContentView::JoinRules(c) && c.join_rule == (
            if is_public(req) {
                JoinRule::Public
            } else {
                JoinRule::Invite
            }))
            &&& !replaced(req, "m.room.guest_access"@, ""@) ==> (latest_state(
                events,
                "m.room.guest_access"@,
                ""@,
            ) matches Some(e) && e.pdu.content matches ContentView::GuestAccess(c) && c.guest_access
                == (if is_public(req) {
                GuestAccessType::Forbidden
            } else {
                GuestAccessType::CanJoin
            }))
            &&& !replaced(req, "m.room.history_visibility"@, ""@) ==> (latest_state(
                events,
                "m.room.history_visibility"@,
                ""@,
            ) matches Some(e) && e.pdu.content matches ContentView::HistoryVisibility(c)
                && c.history_visibility == HistoryVisibilityType::Shared)
            &&& !replaced(req, "m.room.power_levels"@, ""@) ==> (latest_state(
                events,
                "m.room.power_levels"@,
                ""@,
            ) matches Some(e) && e.pdu.content matches ContentView::PowerLevels(p) && (
            req.power_level_content_override matches Some(levels) ==> p == levels@) && (
            req.power_level_content_override is None ==> p.ban == Some(50u32) && p.invite == Some(
                50u32,
            ) && p.kick == Some(50u32) && p.redact == Some(50u32) && p.events == Map::<
                Seq<char>,
                u32,
            >::empty() && p.events_default == Some(0u32) && p.state_default == Some(50u32)
                && p.users == Map::<Seq<char>, u32>::empty() && p.users_default == Some(50u32)
                && p.notifications is None))
        }),
{
    lemma_rule_stands(r, before, after, domain, token, req, number, now, name, 2);
    lemma_rule_stands(r, before, after, domain, token, req, number, now, name, 3);
    lemma_rule_stands(r, before, after, domain, token, req, number, now, name, 4);
    lemma_rule_stands(r, before, after, domain, token, req, number, now, name, 5);
    let drafts = lemma_history(r, before, after, domain, token, req, number, now, name);
    lemma_places(req, mxid_of(name, domain), before.users[name].profile);
    assert(drafts[2].content is Ok && drafts[3].content is Ok && drafts[4].content is Ok
        && drafts[5].content is Ok);
}

proof fn lemma_type_names()
    ensures
        "m.room.create"@.len() == 13,
        "m.room.join_rules"@.len() == 17,
        "m.room.history_visibility"@.len() == 25,
        "m.room.guest_access"@.len() == 19,
        "m.room.name"@.len() == 11,
        "m.room.topic"@.len() == 12,
        "m.room.power_levels"@.len() == 19,
        "m.room.member"@.len() == 13,
        "m.room.create"@ != "m.room.member"@,
        "m.room.guest_access"@ != "m.room.power_levels"@,
{
    reveal_strlit("m.room.create");
    reveal_strlit("m.room.join_rules");
    reveal_strlit("m.room.history_visibility");
    reveal_strlit("m.room.guest_access");
    reveal_strlit("m.room.name");
    reveal_strlit("m.room.topic");
    reveal_strlit("m.room.power_levels");
    reveal_strlit("m.room.member");
    assert("m.room.create"@[7] != "m.room.member"@[7]);
    assert("m.room.guest_access"@[7] != "m.room.power_levels"@[7]);
}

proof fn lemma_rule_stands(
    r: Result<Option<JsonValue>, ErrorKind>,
    before: StorageView,
    after: StorageView,
    domain: Seq<char>,
    token: u128,
    req: CreateRoomRequest,
    number: u64,
    now: i64,
    name: Seq<char>,
    at: int,
)
    requires
        came_about(r, before, after, domain, token, req, number, now, name),
        2 <= at < 6,
    ensures
        ({
            let events = history(after, number, domain);
            let ty = events[at].pdu.content.label();
            events.len() >= 6 && (!replaced(req, ty, ""@) ==> latest_state(events, ty, ""@) == Some(
                events[at],
            ))
        }),
{
    let drafts = lemma_history(r, before, after, domain, token, req, number, now, name);
    let user = mxid_of(name, domain);
    lemma_places(req, user, before.users[name].profile);
    lemma_type_names();
    let events = history(after, number, domain);
    let ty = events[at].pdu.content.label();
    assert(drafts[at].content is Ok);
    if !replaced(req, ty, ""@) {
        assert forall|i: int| at < i < events.len() implies !is_state_of(
            #[trigger] events[i],
            ty,
            ""@,
        ) by {
            assert(drafts[i].content is Ok);
            let n = initial_count(req);
            if 6 <= i < 6 + n {
                assert(drafts[i] == req.initial_state->0@[i - 6]@);
                assert(req.initial_state->0@[i - 6]@.content is Ok);
            }
        }
        lemma_latest(events, ty, ""@, at);
    }
}

/// The further state events that a new room is to have stand in it, in their order, after the rules.
pub proof fn law_room_initial_state(
    r: Result<Option<JsonValue>, ErrorKind>,
    before: StorageView,
    after: StorageView,
    domain: Seq<char>,
    token: u128,
    req: CreateRoomRequest,
    number: u64,
    now: i64,
    name: Seq<char>,
    i: int,
)
    requires
        came_about(r, before, after, domain, token, req, number, now, name),
        req.initial_state is Some,
        0 <= i < req.initial_state->0@.len(),
    ensures
        ({
            let events = history(after, number, domain);
            &&& 6 + i < events.len()
            &&& req.initial_state->0@[i]@.content == Ok::<ContentView, ErrorView>(
                events[6 + i].pdu.content,
            )
            &&& events[6 + i].pdu.state_key == Some(req.initial_state->0@[i]@.state_key)
        }),
{
    let drafts = lemma_history(r, before, after, domain, token, req, number, now, name);
    lemma_places(req, mxid_of(name, domain), before.users[name].profile);
    assert(drafts[6 + i].content is Ok);
}

/// A new room has the name and the topic that were asked for.
pub proof fn law_room_named(
    r: Result<Option<JsonValue>, ErrorKind>,
    before: StorageView,
    after: StorageView,
    domain: Seq<char>,
    token: u128,
    req: CreateRoomRequest,
    number: u64,
    now: i64,
    name: Seq<char>,
)
    requires
        came_about(r, before, after, domain, token, req, number, now, name),
    ensures
        ({
            let events = history(after, number, domain);
            &&& req.name matches Some(wanted) ==> (latest_state(events, "m.room.name"@, ""@)
                matches Some(e) && e.pdu.content == ContentView::Name(wanted@))
            &&& req.topic matches Some(wanted) ==> (latest_state(events, "m.room.topic"@, ""@)
                matches Some(e) && e.pdu.content == ContentView::Topic(wanted@))
            &&& req.name is None && !replaced(req, "m.room.name"@, ""@) ==> latest_state(
                events,
                "m.room.name"@,
                ""@,
            ) is None
            &&& req.topic is None && !replaced(req, "m.room.topic"@, ""@) ==> latest_state(
                events,
                "m.room.topic"@,
                ""@,
            ) is None
        }),
{
    let drafts = lemma_history(r, before, after, domain, token, req, number, now, name);
    lemma_places(req, mxid_of(name, domain), before.users[name].profile);
    lemma_type_names();
    let events = history(after, number, domain);
    let n = initial_count(req);
    let m = n + name_drafts(req.name).len();
    if req.name is Some {
        let at = 6 + n;
        assert(drafts[at].content is Ok);
        assert forall|i: int| at < i < events.len() implies !is_state_of(
            #[trigger] events[i],
            "m.room.name"@,
            ""@,
        ) by {
            assert(drafts[i].content is Ok);
        }
        lemma_latest(events, "m.room.name"@, ""@, at);
    } else if !replaced(req, "m.room.name"@, ""@) {
        assert forall|i: int| 0 <= i < events.len() implies !is_state_of(
            #[trigger] events[i],
            "m.room.name"@,
            ""@,
        ) by {
            assert(drafts[i].content is Ok);
            if 6 <= i < 6 + n {
                assert(drafts[i] == req.initial_state->0@[i - 6]@);
                assert(req.initial_state->0@[i - 6]@.content is Ok);
            }
        }
        lemma_none(events, "m.room.name"@, ""@);
    }
    if req.topic is Some {
        let at = 6 + m;
        assert(drafts[at].content is Ok);
        assert forall|i: int| at < i < events.len() implies !is_state_of(
            #[trigger] events[i],
            "m.room.topic"@,
            ""@,
        ) by {
            assert(drafts[i].content is Ok);
        }
        lemma_latest(events, "m.room.topic"@, ""@, at);
    } else if !replaced(req, "m.room.topic"@, ""@) {
        assert forall|i: int| 0 <= i < events.len() implies !is_state_of(
            #[trigger] events[i],
            "m.room.topic"@,
            ""@,
        ) by {
            assert(drafts[i].content is Ok);
            if 6 <= i < 6 + n {
                assert(drafts[i] == req.initial_state->0@[i - 6]@);
                assert(req.initial_state->0@[i - 6]@.content is Ok);
            }
        }
        lemma_none(events, "m.room.topic"@, ""@);
    }
}

proof fn lemma_none(events: Seq<StoredView>, ty: Seq<char>, key: Seq<char>)
    requires
        forall|i: int| 0 <= i < events.len() ==> !is_state_of(#[trigger] events[i], ty, key),
    ensures
        latest_state(events, ty, key) is None,
    decreases events.len(),
{
    if events.len() > 0 {
        assert(!is_state_of(events[events.len() - 1], ty, key));
        let rest = events.drop_last();
        assert forall|i: int| 0 <= i < rest.len() implies !is_state_of(
            #[trigger] rest[i],
            ty,
            key,
        ) by {
            assert(rest[i] == events[i]);
        }
        lemma_none(rest, ty, key);
    }
}

/// Everyone who was to be invited to a new room is invited, by an event of their own, in their order at the
/// end of the history, and the creator has joined unless they are one of them or a further event says
/// otherwise.
pub proof fn law_room_invited(
    r: Result<Option<JsonValue>, ErrorKind>,
    before: StorageView,
    after: StorageView,
    domain: Seq<char>,
    token: u128,
    req: CreateRoomRequest,
    number: u64,
    now: i64,
    name: Seq<char>,
)
    requires
        came_about(r, before, after, domain, token, req, number, now, name),
    ensures
        ({
            let events = history(after, number, domain);
            let user = mxid_of(name, domain);
            &&& req.invite matches Some(list) ==> list@.len() <= events.len() && (forall|i: int|
                0 <= i < list@.len() ==> ({
                    let e = events[events.len() - list@.len() + i];
                    &&& e.pdu.state_key == Some((#[trigger] list@[i])@)
                    &&& e.pdu.content matches ContentView::Member(m) && m.membership
                        == Membership::Invite && m.displayname is None && m.avatar_url is None
                        && m.is_direct == Some(req.is_direct == Some(true))
                    &&& membership_of(events, list@[i]@) == Some(Membership::Invite)
                }))
            &&& !replaced(req, "m.room.member"@, user) && (req.invite matches Some(list) ==> forall|
                i: int,
            | 0 <= i < list@.len() ==> (#[trigger] list@[i])@ != user) ==> membership_of(
                events,
                user,
            ) == Some(Membership::Join)
        }),
{
    let drafts = lemma_history(r, before, after, domain, token, req, number, now, name);
    let user = mxid_of(name, domain);
    lemma_places(req, user, before.users[name].profile);
    lemma_type_names();
    let events = history(after, number, domain);
    let n = initial_count(req);
    let total = events.len() as int;
    if req.invite is Some {
        let list = req.invite->0@;
        let from = total - list.len();
        assert forall|i: int| 0 <= i < list.len() implies ({
            let e = events[total - list.len() + i];
            &&& e.pdu.state_key == Some((#[trigger] list[i])@)
            &&& e.pdu.content matches ContentView::Member(m) && m.membership == Membership::Invite
                && m.displayname is None && m.avatar_url is None && m.is_direct == Some(
                req.is_direct == Some(true),
            )
            &&& membership_of(events, list[i]@) == Some(Membership::Invite)
        }) by {
            assert(drafts[from + i].content is Ok);
            assert forall|j: int| from <= j < total implies ((
            #[trigger] events[j]).pdu.content matches ContentView::Member(m) && m.membership
                == Membership::Invite) by {
                assert(drafts[j].content is Ok);
            }
            lemma_invited_all(events, list[i]@, from, from + i);
        }
    }
    if !replaced(req, "m.room.member"@, user) && (req.invite matches Some(list) ==> forall|i: int|
        0 <= i < list@.len() ==> (#[trigger] list@[i])@ != user) {
        assert(drafts[1].content is Ok);
        assert forall|i: int| 1 < i < total implies !is_state_of(
            #[trigger] events[i],
            "m.room.member"@,
            user,
        ) by {
            assert(drafts[i].content is Ok);
            if 6 <= i < 6 + n {
                assert(drafts[i] == req.initial_state->0@[i - 6]@);
                assert(req.initial_state->0@[i - 6]@.content is Ok);
            } else if req.invite is Some && i >= total - req.invite->0@.len() {
                let list = req.invite->0@;
                assert(list[i - (total - list.len())]@ != user);
            }
        }
        lemma_latest(events, "m.room.member"@, user, 1);
    }
}

proof fn lemma_invited_all(events: Seq<StoredView>, user: Seq<char>, from: int, at: int)
    requires
        0 <= from <= at < events.len(),
        events[at].pdu.state_key == Some(user),
        forall|j: int|
            from <= j < events.len() ==> ((#[trigger] events[j]).pdu.content matches
                ContentView::Member(m) && m.membership == Membership::Invite),
    ensures
        membership_of(events, user) == Some(Membership::Invite),
    decreases events.len(),
{
    let last = events.len() - 1;
    if is_state_of(events[last], "m.room.member"@, user) {
        assert(latest_state(events, "m.room.member"@, user) == Some(events[last]));
    } else {
        assert(events[at].pdu.content is Member);
        assert(events[last].pdu.content is Member);
        let rest = events.drop_last();
        assert(rest[at] == events[at]);
        assert forall|j: int| from <= j < rest.len() implies ((
        #[trigger] rest[j]).pdu.content matches ContentView::Member(m) && m.membership
            == Membership::Invite) by {
            assert(rest[j] == events[j]);
        }
        lemma_invited_all(rest, user, from, at);
    }
}

/// A room is refused to those who are not known, in a version other than the fourth, or with a further
/// event that cannot be read, and then nothing is changed. Otherwise it is not refused.
pub proof fn law_room_refused(
    r: Result<Option<JsonValue>, ErrorKind>,
    before: StorageView,
    after: StorageView,
    domain: Seq<char>,
    token: u128,
    req: CreateRoomRequest,
    number: u64,
    now: i64,
)
    requires
        creates_room(r, before, after, domain, token, req, number, now),
    ensures
        r is Err ==> after == before,
        r is Ok && r->Ok_0 is None ==> after == before,
        caller_of(before, token) matches Err(e) ==> r is Err && r->Err_0@ == e,
        caller_of(before, token) is Ok && (req.room_version matches Some(v) && v@ != "4"@) ==> r is Err
            && r->Err_0@ == ErrorView::UnsupportedRoomVersion,
        caller_of(before, token) is Ok && (req.room_version matches Some(v) ==> v@ == "4"@) && (
        req.initial_state matches Some(list) ==> forall|i: int|
            0 <= i < list@.len() ==> (#[trigger] list@[i])@.content is Ok) ==> r is Ok,
        r is Ok ==> caller_of(before, token) is Ok && (req.room_version matches Some(v) ==> v@
            == "4"@) && (req.initial_state matches Some(list) ==> forall|i: int|
            0 <= i < list@.len() ==> (#[trigger] list@[i])@.content is Ok),
{
    if caller_of(before, token) is Ok {
        let name = caller_of(before, token)->Ok_0;
        let user = mxid_of(name, domain);
        let profile = before.users[name].profile;
        let drafts = room_drafts(req, user, profile);
        lemma_places(req, user, profile);
        let n = initial_count(req);
        if first_fault(drafts) is None {
            lemma_no_fault(drafts);
            if req.initial_state is Some {
                assert forall|i: int| 0 <= i < n implies (
                #[trigger] req.initial_state->0@[i])@.content is Ok by {
                    assert(drafts[6 + i].content is Ok);
                }
            }
        } else {
            let at = lemma_fault(drafts);
            assert(6 <= at < 6 + n);
            assert(drafts[at] == req.initial_state->0@[at - 6]@);
        }
    }
}

proof fn lemma_fault(drafts: Seq<DraftView>) -> (at: int)
    requires
        first_fault(drafts) is Some,
    ensures
        0 <= at < drafts.len(),
        drafts[at].content is Err,
    decreases drafts.len(),
{
    if drafts[0].content is Err {
        0
    } else {
        let at = lemma_fault(drafts.drop_first());
        assert(drafts.drop_first()[at] == drafts[at + 1]);
        at + 1
    }
}

/// To ask for a room comes to the room that was asked for: it has the name and the topic that were asked for,
/// its creator has joined, and those who were to be invited are invited.
pub proof fn law_room_asked_for<S: Storage>(
    state: &mut ServerState<S>,
    token: AccessToken,
    req: CreateRoomRequest,
    number: u64,
    now: i64,
    r: Result<Option<JsonValue>, ErrorKind>,
    name: Seq<char>,
)
    requires
        call_ensures(create_room_with::<S>, (state, token, req, number, now), r),
        !db_failed(r),
    ensures
        creates_room(
            r,
            old(state).db@,
            final(state).db@,
            old(state).config.domain@,
            token.0,
            req,
            number,
            now,
        ),
        came_about(
            r,
            old(state).db@,
            final(state).db@,
            old(state).config.domain@,
            token.0,
            req,
            number,
            now,
            name,
        ) ==> ({
            let room = room_id_of(number, old(state).config.domain@);
            let events = final(state).db@.rooms[room].events;
            &&& member(r->Ok_0->0@, "room_id"@) == Some(Json::Text(room))
            &&& req.name matches Some(wanted) ==> (latest_state(events, "m.room.name"@, ""@)
                matches Some(e) && e.pdu.content == ContentView::Name(wanted@))
            &&& req.topic matches Some(wanted) ==> (latest_state(events, "m.room.topic"@, ""@)
                matches Some(e) && e.pdu.content == ContentView::Topic(wanted@))
            &&& req.invite matches Some(list) ==> forall|i: int|
                0 <= i < list@.len() ==> membership_of(events, (#[trigger] list@[i])@) == Some(
                    Membership::Invite,
                )
            &&& events[0].pdu.content matches ContentView::Create(c) && c.creator == mxid_of(
                name,
                old(state).config.domain@,
            )
        }),
{
    let before = old(state).db@;
    let after = final(state).db@;
    let domain = old(state).config.domain@;
    if came_about(r, before, after, domain, token.0, req, number, now, name) {
        law_room_answered(r, before, after, domain, token.0, req, number, now, name, domain);
        law_room_named(r, before, after, domain, token.0, req, number, now, name);
        law_room_invited(r, before, after, domain, token.0, req, number, now, name);
        law_room_begins(r, before, after, domain, token.0, req, number, now, name);
    }
}

/// The profile that is kept of a user, or an empty one.
pub open spec fn kept_profile(s: StorageView, name: Seq<char>) -> ProfileView {
    if s.users.contains_key(name) {
        s.users[name].profile
    } else {
        ProfileView { avatar_url: None, displayname: None }
    }
}

/// Whether an event that makes a user a member was put at the end of a room, and nothing else was changed.
pub open spec fn made_member(
    before: StorageView,
    after: StorageView,
    room: Seq<char>,
    sender: Seq<char>,
    target: Seq<char>,
    membership: Membership,
    profile: ProfileView,
    now: i64,
) -> bool {
    let e = after.rooms[room].events.last();
    &&& before.rooms.contains_key(room)
    &&& after.rooms[room].events == before.rooms[room].events.push(e)
    &&& e.pdu.sender == sender
    &&& e.pdu.state_key == Some(target)
    &&& e.pdu.room_id == room
    &&& e.pdu.origin_server_ts == now
    &&& e.pdu.content matches ContentView::Member(m) && m.membership == membership && m.displayname
        == profile.displayname && m.avatar_url == profile.avatar_url && m.is_direct == Some(false)
    &&& membership_of(after.rooms[room].events, target) == Some(membership)
    &&& after.rooms.remove(room) == before.rooms.remove(room)
    &&& after.users == before.users && after.tokens == before.tokens && after.txns == before.txns
        && after.batches == before.batches
}

proof fn lemma_made_member(
    r: Result<bool, ErrorKind>,
    before: StorageView,
    after: StorageView,
    room: Seq<char>,
    sender: Seq<char>,
    target: Seq<char>,
    membership: Membership,
    profile: ProfileView,
    now: i64,
)
    requires
        makes_member(
            r,
            before,
            after,
            room,
            crate::client::room::member_event(profile, membership, sender, target),
            now,
        ),
        r is Ok && r->Ok_0,
    ensures
        made_member(before, after, room, sender, target, membership, profile, now),
{
    let event = crate::client::room::member_event(profile, membership, sender, target);
    let e = drafted(before.rooms, room, event, now)->0;
    crate::storage::laws::law_event_added(before.rooms, e, room);
    let events = after.rooms[room].events;
    assert(events.last() == e);
    assert(is_state_of(events[events.len() - 1], "m.room.member"@, target));
    lemma_latest(events, "m.room.member"@, target, events.len() - 1);
    assert(after.rooms.remove(room) =~= before.rooms.remove(room));
}

/// An invitation is sent by the user of the token to whom it is for, under the profile that is kept of them.
pub proof fn law_invited<S: Storage>(
    state: &mut ServerState<S>,
    token: AccessToken,
    room_id: &str,
    req: InviteRequest,
    now: i64,
    r: Result<bool, ErrorKind>,
)
    requires
        call_ensures(invite_at::<S>, (state, token, room_id, req, now), r),
        !db_failed(r),
    ensures
        r is Ok && r->Ok_0 ==> old(state).db@.tokens.contains_key(token.0) && made_member(
            old(state).db@,
            final(state).db@,
            room_id@,
            mxid_of(old(state).db@.tokens[token.0], old(state).config.domain@),
            req.user_id@,
            Membership::Invite,
            kept_profile(old(state).db@, localpart_of(req.user_id@)),
            now,
        ),
        !(r is Ok && r->Ok_0) ==> final(state).db@ == old(state).db@,
        !old(state).db@.tokens.contains_key(token.0) ==> r is Err && r->Err_0@
            == ErrorView::UnknownToken,
        old(state).db@.tokens.contains_key(token.0) && !old(state).db@.rooms.contains_key(room_id@)
            ==> r is Err && r->Err_0@ == ErrorView::RoomNotFound,
        old(state).db@.tokens.contains_key(token.0) && old(state).db@.rooms.contains_key(room_id@)
            ==> r is Ok,
{
    if r is Ok && r->Ok_0 {
        let name = old(state).db@.tokens[token.0];
        lemma_made_member(
            r,
            old(state).db@,
            final(state).db@,
            room_id@,
            mxid_of(name, old(state).config.domain@),
            req.user_id@,
            Membership::Invite,
            kept_profile(old(state).db@, localpart_of(req.user_id@)),
            now,
        );
    }
}

/// Whoever joins a room does so as the user of their token, under the profile that is kept of them, and is
/// told the name of the room.
pub proof fn law_joined<S: Storage>(
    state: &mut ServerState<S>,
    token: AccessToken,
    room_id: &str,
    now: i64,
    r: Result<Option<JsonValue>, ErrorKind>,
)
    requires
        call_ensures(join_by_id_or_alias_at::<S>, (state, token, room_id, now), r),
        !db_failed(r),
    ensures
        r is Ok && r->Ok_0 is Some ==> old(state).db@.tokens.contains_key(token.0) && made_member(
            old(state).db@,
            final(state).db@,
            room_id@,
            mxid_of(old(state).db@.tokens[token.0], old(state).config.domain@),
            mxid_of(old(state).db@.tokens[token.0], old(state).config.domain@),
            Membership::Join,
            kept_profile(old(state).db@, old(state).db@.tokens[token.0]),
            now,
        ) && member(r->Ok_0->0@, "room_id"@) == Some(Json::Text(room_id@)),
        !(r is Ok && r->Ok_0 is Some) ==> final(state).db@ == old(state).db@,
        !old(state).db@.tokens.contains_key(token.0) ==> r is Err && r->Err_0@
            == ErrorView::UnknownToken,
        old(state).db@.tokens.contains_key(token.0) && !old(state).db@.rooms.contains_key(room_id@)
            ==> r is Err && r->Err_0@ == ErrorView::RoomNotFound,
        old(state).db@.tokens.contains_key(token.0) && old(state).db@.rooms.contains_key(room_id@)
            ==> r is Ok,
{
    let done = choose|done: Result<bool, ErrorKind>|
        crate::client::room::answer_view(r) == crate::client::room::join_answer(done, room_id@)
            && #[trigger] joins(
            done,
            old(state).db@,
            final(state).db@,
            old(state).config.domain@,
            token@,
            room_id@,
            now,
        );
    if r is Ok && r->Ok_0 is Some {
        let name = old(state).db@.tokens[token.0];
        lemma_made_member(
            done,
            old(state).db@,
            final(state).db@,
            room_id@,
            mxid_of(name, old(state).config.domain@),
            mxid_of(name, old(state).config.domain@),
            Membership::Join,
            kept_profile(old(state).db@, name),
            now,
        );
    }
}

/// A room is named by an exclamation mark, sixteen digits, a colon and the domain, and two numbers name two
/// rooms.
pub proof fn law_rooms_named_apart(
    a: u64,
    b: u64,
    domain: &str,
    x: String,
    y: String,
)
    requires
        call_ensures(name_room, (a, domain), x),
        call_ensures(name_room, (b, domain), y),
    ensures
        x@.len() == 18 + domain@.len() && x@[0] == '!' && x@[17] == ':' && x@.skip(18) == domain@,
        x@ == y@ ==> a == b,
        x@.subrange(1, 17) == crate::text::hex_padded(a as nat, 16, true),
{
    crate::text::lemma_hex_bytes(a as nat, 16, true);
    crate::text::lemma_hex_bytes(b as nat, 16, true);
    assert(x@.skip(18) =~= domain@);
    assert(x@.subrange(1, 17) =~= crate::text::hex_padded(a as nat, 16, true));
    assert(y@.subrange(1, 17) =~= crate::text::hex_padded(b as nat, 16, true));
    if x@ == y@ {
        assert(vstd::arithmetic::power::pow(16, 16) == 0x1_0000_0000_0000_0000) by {
            reveal_with_fuel(vstd::arithmetic::power::pow, 17);
        }
        crate::text::law_hex_apart(a as nat, b as nat, 16, true);
    }
}

/// What stands at each place of the history of a new room whose events were held against the rules one after
/// the other.
proof fn lemma_added(
    rooms: Map<Seq<char>, RoomView>,
    room: Seq<char>,
    drafts: Seq<DraftView>,
    sender: Seq<char>,
    now: i64,
)
    requires
        rooms.contains_key(room),
        added(rooms, room, drafts, sender, now).1 is Done,
    ensures
        ({
            let after = added(rooms, room, drafts, sender, now).0;
            let start = rooms[room].events;
            &&& after.contains_key(room)
            &&& after.remove(room) == rooms.remove(room)
            &&& after[room].events.len() == start.len() + drafts.len()
            &&& after[room].events.take(start.len() as int) == start
            &&& forall|i: int|
                0 <= i < drafts.len() ==> (#[trigger] drafts[i]).content is Ok && after[room].events[
                start.len() + i].pdu.content == drafts[i].content->Ok_0 && after[room].events[
                start.len() + i].pdu.state_key == Some(drafts[i].state_key) && after[room].events[
                start.len() + i].pdu.sender == sender && after[room].events[start.len()
                    + i].pdu.origin_server_ts == now
        }),
    decreases drafts.len(),
{
    let after = added(rooms, room, drafts, sender, now).0;
    let start = rooms[room].events;
    if drafts.len() == 0 {
        assert(after[room].events.take(start.len() as int) =~= start);
    } else {
        let e = drafted(rooms, room, sent(drafts[0], sender), now)->0;
        let next = add_one(rooms, e)->0;
        let rest = drafts.drop_first();
        lemma_added(next, room, rest, sender, now);
        let events = after[room].events;
        assert(next[room].events == start.push(e));
        assert(next.remove(room) =~= rooms.remove(room));
        assert(events.take(start.len() as int) =~= start) by {
            assert forall|i: int| 0 <= i < start.len() implies events[i] == start[i] by {
                assert(events.take((start.len() + 1) as int)[i] == start.push(e)[i]);
            }
        }
        assert(events[start.len() as int] == e) by {
            assert(events.take((start.len() + 1) as int)[start.len() as int] == e);
        }
        assert forall|i: int| 0 <= i < drafts.len() implies (
        #[trigger] drafts[i]).content is Ok && events[start.len() + i].pdu.content
            == drafts[i].content->Ok_0 && events[start.len() + i].pdu.state_key == Some(
            drafts[i].state_key,
        ) && events[start.len() + i].pdu.sender == sender && events[start.len()
            + i].pdu.origin_server_ts == now by {
            if i > 0 {
                assert(rest[i - 1] == drafts[i]);
                assert(start.len() + i == start.push(e).len() + (i - 1));
            }
        }
    }
}

/// Where the events of a new room are held against the rules one after the other, the room comes out with all
/// that was asked for: the creation, the creator joining, the levels, the rules, the further events, the name,
/// the topic and the invitations, in this order.
pub proof fn law_checked_room<S: Storage>(
    state: &mut ServerState<S>,
    token: AccessToken,
    req: CreateRoomRequest,
    number: u64,
    now: i64,
    r: Result<Option<JsonValue>, ErrorKind>,
)
    requires
        call_ensures(
            crate::client_api::room::create_room_with::<S>,
            (state, token, req, number, now),
            r,
        ),
        r is Ok && r->Ok_0 is Some,
    ensures
        ({
            let before = old(state).db@;
            let after = final(state).db@;
            let domain = old(state).config.domain@;
            let name = before.tokens[token.0];
            let user = mxid_of(name, domain);
            let room = room_id_of(number, domain);
            let events = after.rooms[room].events;
            let n = initial_count(req);
            let named = if req.name is Some {
                1int
            } else {
                0
            };
            let topical = if req.topic is Some {
                1int
            } else {
                0
            };
            let invited = if req.invite is Some {
                req.invite->0@.len() as int
            } else {
                0
            };
            &&& before.tokens.contains_key(token.0)
            &&& member(r->Ok_0->0@, "room_id"@) == Some(Json::Text(room))
            &&& req.room_version matches Some(v) ==> v@ == "4"@
            &&& after.rooms.contains_key(room)
            &&& after.rooms.remove(room) == before.rooms.remove(room)
            &&& after.users == before.users && after.tokens == before.tokens && after.txns
                == before.txns && after.batches == before.batches
            &&& events.len() == 6 + n + named + topical + invited
            &&& events[0].pdu.content matches ContentView::Create(c) && c.creator == user
                && c.room_version == Some("4"@) && c.predecessor is None && (
            req.creation_content matches Some(extra) ==> c.extra == extra@) && (
            req.creation_content is None ==> c.extra == Map::<Seq<char>, Json>::empty())
            &&& events[0].pdu.state_key == Some(""@)
            &&& events[1].pdu.state_key == Some(user)
            &&& events[1].pdu.content matches ContentView::Member(m) && m.membership
                == Membership::Join && m.displayname == before.users[name].profile.displayname
                && m.avatar_url == before.users[name].profile.avatar_url && m.is_direct
                == req.is_direct
            &&& events[2].pdu.content matches ContentView::PowerLevels(p) && (
            req.power_level_content_override matches Some(levels) ==> p == levels@)
            &&& events[3].pdu.content matches ContentView::JoinRules(c) && c.join_rule == (
            if is_public(req) {
                JoinRule::Public
            } else {
                JoinRule::Invite
            })
            &&& events[4].pdu.content matches ContentView::HistoryVisibility(c)
                && c.history_visibility == HistoryVisibilityType::Shared
            &&& events[5].pdu.content matches ContentView::GuestAccess(c) && c.guest_access == (
            if is_public(req) {
                GuestAccessType::Forbidden
            } else {
                GuestAccessType::CanJoin
            })
            &&& forall|i: int|
                2 <= i < 6 ==> (#[trigger] events[i]).pdu.state_key == Some(""@)
            &&& forall|i: int|
                0 <= i < n ==> (#[trigger] req.initial_state->0@[i])@.content == Ok::<
                    ContentView,
                    ErrorView,
                >(events[6 + i].pdu.content) && events[6 + i].pdu.state_key == Some(
                    req.initial_state->0@[i]@.state_key,
                )
            &&& req.name matches Some(wanted) ==> events[6 + n].pdu.content == ContentView::Name(
                wanted@,
            ) && events[6 + n].pdu.state_key == Some(""@)
            &&& req.topic matches Some(wanted) ==> events[6 + n + named].pdu.content
                == ContentView::Topic(wanted@) && events[6 + n + named].pdu.state_key == Some(""@)
            &&& forall|i: int|
                0 <= i < invited ==> ({
                    let e = events[6 + n + named + topical + i];
                    &&& e.pdu.state_key == Some((#[trigger] req.invite->0@[i])@)
                    &&& e.pdu.content matches ContentView::Member(m) && m.membership
                        == Membership::Invite && m.displayname is None && m.avatar_url is None
                        && m.is_direct == req.is_direct
                })
            &&& forall|i: int|
                0 <= i < events.len() ==> (#[trigger] events[i]).pdu.sender == user
                    && events[i].pdu.origin_server_ts == now
        }),
{
    let before = old(state).db@;
    let after = final(state).db@;
    let domain = old(state).config.domain@;
    let name = before.tokens[token.0];
    let user = mxid_of(name, domain);
    let room = room_id_of(number, domain);
    let profile = before.users[name].profile;
    let first = drafted_first(
        before.rooms,
        room,
        sent(crate::client::room::create_draft(req, user), user),
        now,
    )->0;
    let start = add_one(before.rooms, first)->0;
    let drafts = setup_drafts(req, user, profile, req.is_direct);
    crate::storage::laws::law_event_added(before.rooms, first, room);
    lemma_added(start, room, drafts, user, now);
    lemma_setup_places(req, user, profile, req.is_direct);
    let events = after.rooms[room].events;
    assert(events.take(1)[0] == first);
    assert(start.remove(room) =~= before.rooms.remove(room));
    let n = initial_count(req);
    assert forall|i: int| 0 <= i < n implies (
    #[trigger] req.initial_state->0@[i])@.content == Ok::<ContentView, ErrorView>(
        events[6 + i].pdu.content,
    ) && events[6 + i].pdu.state_key == Some(req.initial_state->0@[i]@.state_key) by {
        assert(drafts[5 + i].content is Ok);
    }
    assert(drafts[0].content is Ok && drafts[1].content is Ok && drafts[2].content is Ok
        && drafts[3].content is Ok && drafts[4].content is Ok);
    assert forall|i: int| 2 <= i < 6 implies (#[trigger] events[i]).pdu.state_key == Some(
        ""@,
    ) by {
        assert(drafts[i - 1].content is Ok);
        assert(drafts[i - 1].state_key == ""@);
    }
    let m = n + name_drafts(req.name).len();
    let k = m + topic_drafts(req.topic).len();
    if req.name is Some {
        assert(drafts[5 + n].content is Ok);
    }
    if req.topic is Some {
        assert(drafts[5 + m].content is Ok);
    }
    if req.invite is Some {
        assert forall|i: int| 0 <= i < req.invite->0@.len() implies ({
            let e = events[6 + k + i];
            &&& e.pdu.state_key == Some((#[trigger] req.invite->0@[i])@)
            &&& e.pdu.content matches ContentView::Member(x) && x.membership == Membership::Invite
                && x.displayname is None && x.avatar_url is None && x.is_direct == req.is_direct
        }) by {
            assert(drafts[5 + k + i].content is Ok);
        }
    }
    assert forall|i: int| 0 <= i < events.len() implies (#[trigger] events[i]).pdu.sender == user
        && events[i].pdu.origin_server_ts == now by {
        if i > 0 {
            assert(drafts[i - 1].content is Ok);
        }
    }
}

/// Where the drafts after the first stand.
proof fn lemma_setup_places(
    req: CreateRoomRequest,
    user: Seq<char>,
    profile: ProfileView,
    direct: Option<bool>,
)
    ensures
        ({
            let drafts = setup_drafts(req, user, profile, direct);
            let n = initial_count(req);
            let m = n + name_drafts(req.name).len();
            let k = m + topic_drafts(req.topic).len();
            &&& drafts.len() == 5 + k + invite_drafts(req.invite, direct).len()
            &&& forall|i: int|
                0 <= i < 5 ==> #[trigger] drafts[i] == common_drafts(req, user, profile, direct)[i]
            &&& forall|i: int|
                5 <= i < 5 + n ==> #[trigger] drafts[i] == req.initial_state->0@[i - 5]@
            &&& forall|i: int|
                5 + n <= i < 5 + m ==> #[trigger] drafts[i] == name_drafts(req.name)[i - 5 - n]
            &&& forall|i: int|
                5 + m <= i < 5 + k ==> #[trigger] drafts[i] == topic_drafts(req.topic)[i - 5 - m]
            &&& forall|i: int|
                5 + k <= i < drafts.len() ==> #[trigger] drafts[i] == invite_drafts(
                    req.invite,
                    direct,
                )[i - 5 - k]
        }),
{
}

/// Whether every event with a content can be hashed and named.
pub open spec fn can_be_named(content: ContentView) -> bool {
    &&& content.well_labelled()
    &&& forall|u: UnhashedView|
        u.content == content ==> canonical_json(#[trigger] u.json()) is Some
    &&& forall|p: PduView| p.content == content ==> (#[trigger] p.event_id()) is Some
}

/// A room comes about wherever it is not refused and each of its events can be hashed and named.
pub proof fn law_room_comes_about(
    r: Result<Option<JsonValue>, ErrorKind>,
    before: StorageView,
    after: StorageView,
    domain: Seq<char>,
    token: u128,
    req: CreateRoomRequest,
    number: u64,
    now: i64,
    name: Seq<char>,
)
    requires
        creates_room(r, before, after, domain, token, req, number, now),
        r is Ok,
        caller_of(before, token) == Ok::<Seq<char>, ErrorView>(name),
        forall|i: int|
            0 <= i < room_drafts(
                req,
                mxid_of(name, domain),
                before.users[name].profile,
            ).len() ==> can_be_named(
                (#[trigger] room_drafts(
                    req,
                    mxid_of(name, domain),
                    before.users[name].profile,
                )[i]).content->Ok_0,
            ),
    ensures
        r->Ok_0 is Some,
{
    let drafts = room_drafts(req, mxid_of(name, domain), before.users[name].profile);
    lemma_chain_goes_on(drafts, room_id_of(number, domain), mxid_of(name, domain), domain, now);
}

proof fn lemma_chain_goes_on(
    drafts: Seq<DraftView>,
    room: Seq<char>,
    sender: Seq<char>,
    domain: Seq<char>,
    now: i64,
)
    requires
        forall|i: int| 0 <= i < drafts.len() ==> can_be_named((#[trigger] drafts[i]).content->Ok_0),
    ensures
        chained(drafts, room, sender, domain, now) is Some,
    decreases drafts.len(),
{
    if drafts.len() > 0 {
        let rest = drafts.drop_last();
        assert forall|i: int| 0 <= i < rest.len() implies can_be_named(
            (#[trigger] rest[i]).content->Ok_0,
        ) by {
            assert(rest[i] == drafts[i]);
        }
        lemma_chain_goes_on(rest, room, sender, domain, now);
        let last = drafts[drafts.len() - 1];
        assert(can_be_named(last.content->Ok_0));
        let u = link(
            chained(rest, room, sender, domain, now)->0,
            last.content->Ok_0,
            last.state_key,
            room,
            sender,
            domain,
            now,
        );
        crate::events::laws::law_finalized(u);
        assert(canonical_json(u.json()) is Some);
        assert(u.finalized()->0.event_id() is Some);
    }
}

} // verus!
