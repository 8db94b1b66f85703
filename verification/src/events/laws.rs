//! What events say, and what their names cover.
use crate::events::room::{
    GuestAccessType, HistoryVisibilityType, JoinRule, Membership, PowerLevelsView,
};
use crate::events::room_version::v4::{PduV4, PduView, UnhashedPdu, UnhashedView};
use crate::events::pdu::StoredPdu;
use crate::events::room_version::VersionedPdu;
use crate::events::{ContentView, Event, EventContent};
use crate::json::{canonical_json, Json, JsonValue};
use crate::outside::{base64_text, sha256_digest};
use crate::validate::auth::AuthStatus;
use vstd::prelude::*;
use vstd::utf8::encode_utf8;

verus! {

/// A member of a JSON object, where it has one of that name.
pub open spec fn member(value: Json, name: Seq<char>) -> Option<Json> {
    if value is Object && value->Object_0.contains_key(name) {
        Some(value->Object_0[name])
    } else {
        None
    }
}

/// Whether a JSON value lists some texts.
pub open spec fn lists(value: Option<Json>, items: Seq<Seq<char>>) -> bool {
    &&& value is Some && value->0 is Array
    &&& value->0->Array_0.len() == items.len()
    &&& forall|i: int|
        0 <= i < items.len() ==> #[trigger] value->0->Array_0[i] == Json::Text(items[i])
}

/// A text as JSON, where there is one.
pub open spec fn text_member(text: Option<Seq<char>>) -> Option<Json> {
    match text {
        Some(t) => Some(Json::Text(t)),
        None => None,
    }
}

/// Whether the JSON of an event names all that the event says.
pub open spec fn tells(
    value: Json,
    content: ContentView,
    room_id: Seq<char>,
    sender: Seq<char>,
    state_key: Option<Seq<char>>,
    redacts: Option<Seq<char>>,
    origin: Seq<char>,
    origin_server_ts: i64,
    prev_events: Seq<Seq<char>>,
    depth: i64,
    auth_events: Seq<Seq<char>>,
) -> bool {
    &&& value is Object
    &&& member(value, "type"@) == Some(Json::Text(content.label()))
    &&& member(value, "content"@) == Some(content.json())
    &&& member(value, "room_id"@) == Some(Json::Text(room_id))
    &&& member(value, "sender"@) == Some(Json::Text(sender))
    &&& member(value, "state_key"@) == text_member(state_key)
    &&& member(value, "redacts"@) == text_member(redacts)
    &&& member(value, "origin"@) == Some(Json::Text(origin))
    &&& member(value, "origin_server_ts"@) == Some(Json::Integer(origin_server_ts as int))
    &&& lists(member(value, "prev_events"@), prev_events)
    &&& member(value, "depth"@) == Some(Json::Integer(depth as int))
    &&& lists(member(value, "auth_events"@), auth_events)
}

/// Whether a name is one of those of the members that are hashed.
pub open spec fn is_hashed_name(name: Seq<char>) -> bool {
    name == "type"@ || name == "content"@ || name == "room_id"@ || name == "sender"@ || name
        == "state_key"@ || name == "redacts"@ || name == "origin"@ || name == "origin_server_ts"@
        || name == "prev_events"@ || name == "depth"@ || name == "auth_events"@
}

proof fn lemma_names()
    ensures
        "type"@.len() == 4,
        "content"@.len() == 7,
        "room_id"@.len() == 7,
        "sender"@.len() == 6,
        "state_key"@.len() == 9,
        "unsigned"@.len() == 8,
        "redacts"@.len() == 7,
        "origin"@.len() == 6,
        "origin_server_ts"@.len() == 16,
        "prev_events"@.len() == 11,
        "depth"@.len() == 5,
        "auth_events"@.len() == 11,
        "hashes"@.len() == 6,
        "signatures"@.len() == 10,
        "content"@ != "room_id"@,
        "content"@ != "redacts"@,
        "room_id"@ != "redacts"@,
        "sender"@ != "origin"@,
        "sender"@ != "hashes"@,
        "origin"@ != "hashes"@,
        "prev_events"@ != "auth_events"@,
{
    reveal_strlit("type");
    reveal_strlit("content");
    reveal_strlit("room_id");
    reveal_strlit("sender");
    reveal_strlit("state_key");
    reveal_strlit("unsigned");
    reveal_strlit("redacts");
    reveal_strlit("origin");
    reveal_strlit("origin_server_ts");
    reveal_strlit("prev_events");
    reveal_strlit("depth");
    reveal_strlit("auth_events");
    reveal_strlit("hashes");
    reveal_strlit("signatures");
    assert("content"@[0] != "room_id"@[0]);
    assert("content"@[0] != "redacts"@[0]);
    assert("room_id"@[1] != "redacts"@[1]);
    assert("sender"@[0] != "origin"@[0]);
    assert("sender"@[0] != "hashes"@[0]);
    assert("origin"@[0] != "hashes"@[0]);
    assert("prev_events"@[0] != "auth_events"@[0]);
}

/// What is hashed of an event tells all that it says, each thing under its name, and nothing else: not
/// what is left unsigned.
pub proof fn law_hashed_json(u: UnhashedView)
    ensures
        tells(
            u.json(),
            u.content,
            u.room_id,
            u.sender,
            u.state_key,
            u.redacts,
            u.origin,
            u.origin_server_ts,
            u.prev_events,
            u.depth,
            u.auth_events,
        ),
        forall|name: Seq<char>|
            (#[trigger] member(u.json(), name)) is Some ==> is_hashed_name(name),
{
    lemma_names();
}

/// The JSON of a data unit tells all that it says, each thing under its name, with its hash, and with what
/// is unsigned and the signatures where there are any.
pub proof fn law_pdu_json(p: PduView)
    ensures
        tells(
            p.json(),
            p.content,
            p.room_id,
            p.sender,
            p.state_key,
            p.redacts,
            p.origin,
            p.origin_server_ts,
            p.prev_events,
            p.depth,
            p.auth_events,
        ),
        member(p.json(), "unsigned"@) == p.unsigned,
        member(p.json(), "hashes"@) is Some,
        member(member(p.json(), "hashes"@)->0, "sha256"@) == Some(Json::Text(p.hash)),
        member(p.json(), "signatures"@) == (match p.signatures {
            Some(s) => Some(Json::Object(s)),
            None => None,
        }),
        forall|name: Seq<char>|
            (#[trigger] member(p.json(), name)) is Some ==> is_hashed_name(name) || name
                == "unsigned"@ || name == "hashes"@ || name == "signatures"@,
{
    lemma_names();
}

/// Two events from which the same is hashed say the same, but for what is unsigned.
pub proof fn law_hashed_apart(u: UnhashedView, v: UnhashedView)
    requires
        u.json() == v.json(),
    ensures
        u.content.label() == v.content.label(),
        u.content.json() == v.content.json(),
        u.room_id == v.room_id,
        u.sender == v.sender,
        u.state_key == v.state_key,
        u.redacts == v.redacts,
        u.origin == v.origin,
        u.origin_server_ts == v.origin_server_ts,
        u.prev_events == v.prev_events,
        u.depth == v.depth,
        u.auth_events == v.auth_events,
{
    law_hashed_json(u);
    law_hashed_json(v);
    let value = u.json();
    lemma_lists_same(member(value, "prev_events"@), u.prev_events, v.prev_events);
    lemma_lists_same(member(value, "auth_events"@), u.auth_events, v.auth_events);
}

proof fn lemma_lists_same(value: Option<Json>, a: Seq<Seq<char>>, b: Seq<Seq<char>>)
    requires
        lists(value, a),
        lists(value, b),
    ensures
        a == b,
{
    assert forall|i: int| 0 <= i < a.len() implies #[trigger] a[i] == b[i] by {
        assert(value->0->Array_0[i] == Json::Text(a[i]));
        assert(value->0->Array_0[i] == Json::Text(b[i]));
    }
    assert(a =~= b);
}

/// Two data units whose JSON is the same say the same.
pub proof fn law_pdus_apart(p: PduView, q: PduView)
    requires
        p.json() == q.json(),
    ensures
        p.content.label() == q.content.label(),
        p.content.json() == q.content.json(),
        p.room_id == q.room_id,
        p.sender == q.sender,
        p.state_key == q.state_key,
        p.unsigned == q.unsigned,
        p.redacts == q.redacts,
        p.origin == q.origin,
        p.origin_server_ts == q.origin_server_ts,
        p.prev_events == q.prev_events,
        p.depth == q.depth,
        p.auth_events == q.auth_events,
        p.hash == q.hash,
        p.signatures == q.signatures,
{
    law_pdu_json(p);
    law_pdu_json(q);
    let value = p.json();
    lemma_lists_same(member(value, "prev_events"@), p.prev_events, q.prev_events);
    lemma_lists_same(member(value, "auth_events"@), p.auth_events, q.auth_events);
}

/// An event is hashed into a data unit that says the same, bears no signature yet, and has the URL-safe
/// base64 text of the SHA-256 digest of its canonical JSON. Only an event without a canonical JSON is not.
pub proof fn law_finalized(u: UnhashedView)
    ensures
        u.finalized() is Some == (canonical_json(u.json()) is Some),
        u.finalized() is Some ==> ({
            let p = u.finalized()->0;
            &&& p.hash == base64_text(sha256_digest(encode_utf8(canonical_json(u.json())->0)))
            &&& p.content == u.content
            &&& p.room_id == u.room_id
            &&& p.sender == u.sender
            &&& p.state_key == u.state_key
            &&& p.unsigned == u.unsigned
            &&& p.redacts == u.redacts
            &&& p.origin == u.origin
            &&& p.origin_server_ts == u.origin_server_ts
            &&& p.prev_events == u.prev_events
            &&& p.depth == u.depth
            &&& p.auth_events == u.auth_events
            &&& p.signatures == Some(Map::<Seq<char>, Json>::empty())
        }),
{
}

/// A redacted event says the same as before but for its content, what is unsigned, and what it redacts.
pub proof fn law_redacted_pdu(p: PduView)
    ensures
        ({
            let r = p.redacted();
            &&& r.content == p.content.redacted()
            &&& r.unsigned is None
            &&& r.redacts is None
            &&& r.room_id == p.room_id
            &&& r.sender == p.sender
            &&& r.state_key == p.state_key
            &&& r.origin == p.origin
            &&& r.origin_server_ts == p.origin_server_ts
            &&& r.prev_events == p.prev_events
            &&& r.depth == p.depth
            &&& r.auth_events == p.auth_events
            &&& r.hash == p.hash
            &&& r.signatures == p.signatures
        }),
{
}

/// An event is named by a dollar sign and the URL-safe base64 text of the SHA-256 digest of the canonical
/// JSON that it has once redacted, without signatures. This JSON tells what the event says.
pub proof fn law_event_id(p: PduView)
    ensures
        exists|named: Json| #[trigger]
            tells(
                named,
                p.content.redacted(),
                p.room_id,
                p.sender,
                p.state_key,
                None,
                p.origin,
                p.origin_server_ts,
                p.prev_events,
                p.depth,
                p.auth_events,
            ) && member(named, "unsigned"@) is None && member(named, "signatures"@) is None
                && member(named, "hashes"@) is Some && member(
                member(named, "hashes"@)->0,
                "sha256"@,
            ) == Some(Json::Text(p.hash)) && p.event_id() == (match canonical_json(named) {
                Some(text) => Some(
                    seq!['$'] + base64_text(sha256_digest(encode_utf8(text))),
                ),
                None => None,
            }),
{
    let bare = PduView { signatures: None, ..p.redacted() };
    law_pdu_json(bare);
    let named = bare.json();
    assert(tells(
        named,
        p.content.redacted(),
        p.room_id,
        p.sender,
        p.state_key,
        None,
        p.origin,
        p.origin_server_ts,
        p.prev_events,
        p.depth,
        p.auth_events,
    ));
}

/// Whether a JSON object has one member at most, and that of a given name.
pub open spec fn only(value: Json, name: Seq<char>) -> bool {
    value is Object && forall|other: Seq<char>| #[trigger]
        value->Object_0.contains_key(other) ==> other == name
}

/// A redaction leaves of a membership only what it is, of a creation only the creator, of power levels all
/// but the level for invitations and the notifications, and join rules and the visibility of the history as
/// they are. Of any other content it leaves nothing, but for the aliases of a room.
pub proof fn law_redacted_content(content: ContentView)
    ensures
        ({
            let before = content.json();
            let after = content.redacted().json();
            &&& content.redacted().label() == content.label()
            &&& content matches ContentView::Create(c) ==> only(after, "creator"@) && member(
                after,
                "creator"@,
            ) == Some(Json::Text(c.creator))
            &&& content matches ContentView::Member(m) ==> only(after, "membership"@) && member(
                after,
                "membership"@,
            ) == member(before, "membership"@) && member(after, "membership"@) is Some
            &&& content is JoinRules || content is HistoryVisibility ==> after == before
            &&& content is Name || content is Topic || content is GuestAccess || content is Redaction
                ==> after is Object && after->Object_0.dom() =~= Set::empty()
            &&& content matches ContentView::Unknown { ty, content: json } ==> after is Object && (
            if ty == "m.room.aliases"@ {
                only(after, "aliases"@) && member(after, "aliases"@) == member(json, "aliases"@)
            } else {
                after->Object_0.dom() =~= Set::empty()
            })
            &&& content matches ContentView::PowerLevels(p) ==> content.redacted()
                == ContentView::PowerLevels(
                PowerLevelsView {
                    ban: p.ban,
                    invite: None,
                    kick: p.kick,
                    redact: p.redact,
                    events: p.events,
                    events_default: p.events_default,
                    state_default: p.state_default,
                    users: p.users,
                    users_default: p.users_default,
                    notifications: None,
                },
            )
        }),
{
    crate::events::law_redaction_idempotent(content);
    lemma_content_names();
    match content {
        ContentView::Create(_) => {
            let after = content.redacted().json();
            assert(after->Object_0 =~= Map::<Seq<char>, Json>::empty().insert(
                "creator"@,
                Json::Text(content->Create_0.creator),
            ));
        },
        _ => {},
    }
}

proof fn lemma_content_names()
    ensures
        "avatar_url"@.len() == 10,
        "displayname"@.len() == 11,
        "membership"@.len() == 10,
        "is_direct"@.len() == 9,
        "avatar_url"@ != "membership"@,
        "creator"@.len() == 7,
        "room_version"@.len() == 12,
        "predecessor"@.len() == 11,
        "ban"@.len() == 3,
        "invite"@.len() == 6,
        "kick"@.len() == 4,
        "redact"@.len() == 6,
        "events"@.len() == 6,
        "events_default"@.len() == 14,
        "state_default"@.len() == 13,
        "users"@.len() == 5,
        "users_default"@.len() == 13,
        "notifications"@.len() == 13,
        "invite"@ != "redact"@,
        "invite"@ != "events"@,
        "redact"@ != "events"@,
        "state_default"@ != "users_default"@,
        "state_default"@ != "notifications"@,
        "users_default"@ != "notifications"@,
        "room_id"@.len() == 7,
        "event_id"@.len() == 8,
{
    reveal_strlit("avatar_url");
    reveal_strlit("displayname");
    reveal_strlit("membership");
    reveal_strlit("is_direct");
    reveal_strlit("creator");
    reveal_strlit("room_version");
    reveal_strlit("predecessor");
    reveal_strlit("ban");
    reveal_strlit("invite");
    reveal_strlit("kick");
    reveal_strlit("redact");
    reveal_strlit("events");
    reveal_strlit("events_default");
    reveal_strlit("state_default");
    reveal_strlit("users");
    reveal_strlit("users_default");
    reveal_strlit("notifications");
    reveal_strlit("room_id");
    reveal_strlit("event_id");
    assert("avatar_url"@[0] != "membership"@[0]);
    assert("invite"@[0] != "redact"@[0]);
    assert("invite"@[0] != "events"@[0]);
    assert("redact"@[0] != "events"@[0]);
    assert("state_default"@[0] != "users_default"@[0]);
    assert("state_default"@[0] != "notifications"@[0]);
    assert("users_default"@[0] != "notifications"@[0]);
}

/// Each content goes by the name of its type.
pub proof fn law_types(content: ContentView)
    ensures
        match content {
            ContentView::Create(_) => content.label() == "m.room.create"@,
            ContentView::JoinRules(_) => content.label() == "m.room.join_rules"@,
            ContentView::HistoryVisibility(_) => content.label() == "m.room.history_visibility"@,
            ContentView::GuestAccess(_) => content.label() == "m.room.guest_access"@,
            ContentView::Name(_) => content.label() == "m.room.name"@,
            ContentView::Topic(_) => content.label() == "m.room.topic"@,
            ContentView::PowerLevels(_) => content.label() == "m.room.power_levels"@,
            ContentView::Member(_) => content.label() == "m.room.member"@,
            ContentView::Redaction(_) => content.label() == "m.room.redaction"@,
            ContentView::Unknown { ty, .. } => content.label() == ty,
        },
        content.well_labelled() <==> !(content is Unknown && (content.label() == "m.room.create"@
            || content.label() == "m.room.join_rules"@ || content.label()
            == "m.room.history_visibility"@ || content.label() == "m.room.guest_access"@
            || content.label() == "m.room.name"@ || content.label() == "m.room.topic"@
            || content.label() == "m.room.power_levels"@ || content.label() == "m.room.member"@
            || content.label() == "m.room.redaction"@)),
{
    if content.kind() is Some {
        crate::events::law_kind_names(content.kind()->0);
    }
}

/// A level as JSON: the number, or null.
pub open spec fn shown_level(level: Option<u32>) -> Option<Json> {
    Some(
        match level {
            Some(n) => Json::Integer(n as int),
            None => Json::Null,
        },
    )
}

/// Whether a JSON value is an object of numbers.
pub open spec fn shows_levels(value: Option<Json>, levels: Map<Seq<char>, u32>) -> bool {
    &&& value is Some && value->0 is Object
    &&& forall|key: Seq<char>| #[trigger]
        value->0->Object_0.contains_key(key) == levels.contains_key(key)
    &&& forall|key: Seq<char>|
        levels.contains_key(key) ==> #[trigger] value->0->Object_0[key] == Json::Integer(
            levels[key] as int,
        )
}

/// What a content says stands in its JSON, each thing under its name.
pub proof fn law_content_json(content: ContentView)
    ensures
        ({
            let value = content.json();
            match content {
                ContentView::Create(c) => value is Object && (forall|key: Seq<char>|
                    c.extra.contains_key(key) ==> #[trigger] member(value, key) == Some(
                        c.extra[key],
                    )) && (!c.extra.contains_key("creator"@) ==> member(value, "creator"@) == Some(
                    Json::Text(c.creator),
                )) && (!c.extra.contains_key("room_version"@) ==> member(value, "room_version"@)
                    == text_member(c.room_version)) && (!c.extra.contains_key("predecessor"@)
                    ==> match c.predecessor {
                    Some(p) => member(value, "predecessor"@) is Some && member(
                        member(value, "predecessor"@)->0,
                        "room_id"@,
                    ) == Some(Json::Text(p.room_id)) && member(
                        member(value, "predecessor"@)->0,
                        "event_id"@,
                    ) == Some(Json::Text(p.event_id)),
                    None => member(value, "predecessor"@) is None,
                }),
                ContentView::JoinRules(c) => only(value, "join_rule"@) && member(
                    value,
                    "join_rule"@,
                ) == Some(
                    Json::Text(
                        match c.join_rule {
                            JoinRule::Public => "public"@,
                            JoinRule::Knock => "knock"@,
                            JoinRule::Invite => "invite"@,
                            JoinRule::Private => "private"@,
                        },
                    ),
                ),
                ContentView::HistoryVisibility(c) => only(value, "history_visibility"@) && member(
                    value,
                    "history_visibility"@,
                ) == Some(
                    Json::Text(
                        match c.history_visibility {
                            HistoryVisibilityType::Invited => "invited"@,
                            HistoryVisibilityType::Joined => "joined"@,
                            HistoryVisibilityType::Shared => "shared"@,
                            HistoryVisibilityType::WorldReadable => "world_readable"@,
                        },
                    ),
                ),
                ContentView::GuestAccess(c) => only(value, "guest_access"@) && member(
                    value,
                    "guest_access"@,
                ) == Some(
                    Json::Text(
                        match c.guest_access {
                            GuestAccessType::CanJoin => "can_join"@,
                            GuestAccessType::Forbidden => "forbidden"@,
                        },
                    ),
                ),
                ContentView::Name(name) => only(value, "name"@) && member(value, "name"@) == Some(
                    Json::Text(name),
                ),
                ContentView::Topic(topic) => only(value, "topic"@) && member(value, "topic"@)
                    == Some(Json::Text(topic)),
                ContentView::PowerLevels(p) => {
                    &&& member(value, "ban"@) == shown_level(p.ban)
                    &&& member(value, "invite"@) == shown_level(p.invite)
                    &&& member(value, "kick"@) == shown_level(p.kick)
                    &&& member(value, "redact"@) == shown_level(p.redact)
                    &&& shows_levels(member(value, "events"@), p.events)
                    &&& member(value, "events_default"@) == shown_level(p.events_default)
                    &&& member(value, "state_default"@) == shown_level(p.state_default)
                    &&& shows_levels(member(value, "users"@), p.users)
                    &&& member(value, "users_default"@) == shown_level(p.users_default)
                    &&& match p.notifications {
                        Some(n) => member(value, "notifications"@) is Some && member(
                            member(value, "notifications"@)->0,
                            "room"@,
                        ) == Some(Json::Integer(n.room as int)),
                        None => member(value, "notifications"@) is None,
                    }
                },
                ContentView::Member(m) => {
                    &&& member(value, "avatar_url"@) == text_member(m.avatar_url)
                    &&& member(value, "displayname"@) == text_member(m.displayname)
                    &&& member(value, "membership"@) == Some(
                        Json::Text(
                            match m.membership {
                                Membership::Invite => "invite"@,
                                Membership::Join => "join"@,
                                Membership::Knock => "knock"@,
                                Membership::Leave => "leave"@,
                                Membership::Ban => "ban"@,
                            },
                        ),
                    )
                    &&& member(value, "is_direct"@) == (match m.is_direct {
                        Some(b) => Some(Json::Bool(b)),
                        None => None,
                    })
                },
                ContentView::Redaction(reason) => only(value, "reason"@) && member(
                    value,
                    "reason"@,
                ) == text_member(reason),
                ContentView::Unknown { content: json, .. } => value == json,
            }
        }),
{
    lemma_content_names();
}

/// Clients see of an event its content, its sender, its room, its state key, what is unsigned, what it
/// redacts and its time.
pub proof fn law_client_format(p: PduView)
    ensures
        ({
            let e = p.client_format();
            &&& e.content == p.content
            &&& e.sender == p.sender
            &&& e.room_id == Some(p.room_id)
            &&& e.state_key == p.state_key
            &&& e.unsigned == p.unsigned
            &&& e.redacts == p.redacts
            &&& e.origin_server_ts == Some(p.origin_server_ts)
        }),
{
}

/// What a data unit is taken to say is what its fields hold.
pub proof fn law_pdu_fields(p: PduV4, u: UnhashedPdu)
    ensures
        p@.content == p.event_content@ && u@.content == u.event_content@,
        p@.room_id == p.room_id@ && u@.room_id == u.room_id@,
        p@.sender == p.sender@ && u@.sender == u.sender@,
        p@.state_key is Some == p.state_key is Some,
        u@.state_key is Some == u.state_key is Some,
        p.state_key is Some ==> p@.state_key->0 == p.state_key->0@,
        u.state_key is Some ==> u@.state_key->0 == u.state_key->0@,
        p@.unsigned is Some == p.unsigned is Some,
        p.unsigned is Some ==> p@.unsigned->0 == p.unsigned->0@,
        p@.redacts is Some == p.redacts is Some,
        p.redacts is Some ==> p@.redacts->0 == p.redacts->0@,
        u@.redacts is Some == u.redacts is Some,
        u.redacts is Some ==> u@.redacts->0 == u.redacts->0@,
        p@.origin == p.origin@ && u@.origin == u.origin@,
        p@.origin_server_ts == p.origin_server_ts && u@.origin_server_ts == u.origin_server_ts,
        p@.depth == p.depth && u@.depth == u.depth,
        p@.hash == p.hashes.sha256@,
        p@.prev_events.len() == p.prev_events@.len(),
        forall|i: int|
            0 <= i < p.prev_events@.len() ==> #[trigger] p@.prev_events[i] == p.prev_events@[i]@,
        p@.auth_events.len() == p.auth_events@.len(),
        forall|i: int|
            0 <= i < p.auth_events@.len() ==> #[trigger] p@.auth_events[i] == p.auth_events@[i]@,
        u@.prev_events.len() == u.prev_events@.len(),
        forall|i: int|
            0 <= i < u.prev_events@.len() ==> #[trigger] u@.prev_events[i] == u.prev_events@[i]@,
        u@.auth_events.len() == u.auth_events@.len(),
        forall|i: int|
            0 <= i < u.auth_events@.len() ==> #[trigger] u@.auth_events[i] == u.auth_events@[i]@,
{
}

/// What is hashed of an event is its JSON, in which everything that it says but what is unsigned stands
/// under its name: its hash covers all of that. It is hashed whenever that has a canonical text.
pub proof fn law_hash_covers(u: UnhashedPdu, v: JsonValue, r: Option<PduV4>)
    requires
        call_ensures(UnhashedPdu::to_json, (&u,), v),
        call_ensures(UnhashedPdu::try_finalize, (u,), r),
    ensures
        tells(
            v@,
            u.event_content@,
            u.room_id@,
            u.sender@,
            crate::text::text_opt(u.state_key),
            crate::text::text_opt(u.redacts),
            u.origin@,
            u.origin_server_ts,
            crate::text::texts(u.prev_events@),
            u.depth,
            crate::text::texts(u.auth_events@),
        ),
        forall|name: Seq<char>| (#[trigger] member(v@, name)) is Some ==> is_hashed_name(name),
        r is Some == (canonical_json(v@) is Some),
        r is Some ==> r->0.hashes.sha256@ == base64_text(
            sha256_digest(encode_utf8(canonical_json(v@)->0)),
        ),
        r is Some ==> ({
            let p = r->0@;
            &&& p.content == u.event_content@
            &&& p.room_id == u.room_id@
            &&& p.sender == u.sender@
            &&& p.state_key == u@.state_key
            &&& p.unsigned == u@.unsigned
            &&& p.redacts == u@.redacts
            &&& p.origin == u.origin@
            &&& p.origin_server_ts == u.origin_server_ts
            &&& p.prev_events == u@.prev_events
            &&& p.depth == u.depth
            &&& p.auth_events == u@.auth_events
            &&& p.signatures == Some(Map::<Seq<char>, Json>::empty())
        }),
{
    law_hashed_json(u@);
    law_finalized(u@);
}

/// Events whose hashed JSON is the same cite the same events, follow the same, and say the same.
pub proof fn law_hash_tells_apart(u: UnhashedPdu, w: UnhashedPdu, v: JsonValue, x: JsonValue)
    requires
        call_ensures(UnhashedPdu::to_json, (&u,), v),
        call_ensures(UnhashedPdu::to_json, (&w,), x),
        v@ == x@,
    ensures
        u@.auth_events == w@.auth_events,
        u@.prev_events == w@.prev_events,
        u@.depth == w@.depth,
        u@.origin == w@.origin,
        u@.origin_server_ts == w@.origin_server_ts,
        u@.room_id == w@.room_id,
        u@.sender == w@.sender,
        u@.state_key == w@.state_key,
        u@.redacts == w@.redacts,
        u@.content.label() == w@.content.label(),
        u@.content.json() == w@.content.json(),
{
    law_hashed_apart(u@, w@);
}

/// An event is named by what it says once redacted: a dollar sign and the hash of that JSON, which tells what
/// the event cites and follows and where it stands, and bears no signatures.
pub proof fn law_name_covers(
    p: &PduV4,
    id: Option<String>,
    redacted: PduV4,
)
    requires
        call_ensures(PduV4::try_event_id, (p,), id),
        call_ensures(PduV4::redact, (*p,), redacted),
    ensures
        exists|named: Json| #[trigger]
            tells(
                named,
                redacted.event_content@,
                p.room_id@,
                p.sender@,
                crate::text::text_opt(p.state_key),
                None,
                p.origin@,
                p.origin_server_ts,
                crate::text::texts(p.prev_events@),
                p.depth,
                crate::text::texts(p.auth_events@),
            ) && member(named, "unsigned"@) is None && member(named, "signatures"@) is None
                && member(named, "hashes"@) is Some && member(
                member(named, "hashes"@)->0,
                "sha256"@,
            ) == Some(Json::Text(p.hashes.sha256@)) && id is Some == canonical_json(named) is Some
                && (id is Some ==> id->0@ == seq!['$'] + base64_text(
                sha256_digest(encode_utf8(canonical_json(named)->0)),
            )),
        redacted@.content == p@.content.redacted(),
        redacted@.unsigned is None && redacted@.redacts is None,
        redacted@.room_id == p@.room_id && redacted@.sender == p@.sender && redacted@.state_key
            == p@.state_key && redacted@.origin == p@.origin && redacted@.origin_server_ts
            == p@.origin_server_ts && redacted@.prev_events == p@.prev_events && redacted@.depth
            == p@.depth && redacted@.auth_events == p@.auth_events && redacted@.hash == p@.hash
            && redacted@.signatures == p@.signatures,
{
    law_event_id(p@);
    let named = choose|named: Json| #[trigger]
        tells(
            named,
            p@.content.redacted(),
            p@.room_id,
            p@.sender,
            p@.state_key,
            None,
            p@.origin,
            p@.origin_server_ts,
            p@.prev_events,
            p@.depth,
            p@.auth_events,
        ) && member(named, "unsigned"@) is None && member(named, "signatures"@) is None && member(
            named,
            "hashes"@,
        ) is Some && member(member(named, "hashes"@)->0, "sha256"@) == Some(Json::Text(p@.hash))
            && p@.event_id() == (match canonical_json(named) {
            Some(text) => Some(seq!['$'] + base64_text(sha256_digest(encode_utf8(text)))),
            None => None,
        });
    assert(tells(
        named,
        redacted.event_content@,
        p.room_id@,
        p.sender@,
        crate::text::text_opt(p.state_key),
        None,
        p.origin@,
        p.origin_server_ts,
        crate::text::texts(p.prev_events@),
        p.depth,
        crate::text::texts(p.auth_events@),
    ));
}

/// The JSON of a data unit and what clients see of it say what its fields hold.
pub proof fn law_pdu_shown(p: PduV4, v: JsonValue, e: Event)
    requires
        call_ensures(PduV4::to_json, (&p,), v),
        call_ensures(PduV4::to_client_format, (p,), e),
    ensures
        tells(
            v@,
            p.event_content@,
            p.room_id@,
            p.sender@,
            crate::text::text_opt(p.state_key),
            crate::text::text_opt(p.redacts),
            p.origin@,
            p.origin_server_ts,
            crate::text::texts(p.prev_events@),
            p.depth,
            crate::text::texts(p.auth_events@),
        ),
        member(v@, "unsigned"@) == p@.unsigned,
        member(v@, "hashes"@) is Some,
        member(member(v@, "hashes"@)->0, "sha256"@) == Some(Json::Text(p.hashes.sha256@)),
        p.signatures is None ==> member(v@, "signatures"@) is None,
        p.signatures is Some ==> member(v@, "signatures"@) == Some(
            Json::Object(p.signatures->0@),
        ),
        e@.content == p.event_content@,
        e@.sender == p.sender@,
        e@.room_id == Some(p.room_id@),
        e@.state_key == p@.state_key,
        e@.unsigned == p@.unsigned,
        e@.redacts == p@.redacts,
        e@.origin_server_ts == Some(p.origin_server_ts),
{
    law_pdu_json(p@);
    law_client_format(p@);
}

/// A content tells its type, its JSON and what a redaction leaves of it.
pub proof fn law_content_read(
    c: EventContent,
    ty: &str,
    json: JsonValue,
    redacted: EventContent,
    well: bool,
)
    requires
        call_ensures(EventContent::get_type, (&c,), ty),
        call_ensures(EventContent::content_as_json, (&c,), json),
        call_ensures(EventContent::redact, (c,), redacted),
        call_ensures(EventContent::is_well_labelled, (&c,), well),
    ensures
        ty@ == c@.label(),
        json@ == c@.json(),
        redacted@ == c@.redacted(),
        well == c@.well_labelled(),
{
}

/// The JSON of an event for clients tells what it says, each thing under its name, and nothing that is not
/// there.
pub proof fn law_event_shown(e: &Event, v: JsonValue)
    requires
        call_ensures(Event::to_json, (e,), v),
    ensures
        member(v@, "type"@) == Some(Json::Text(e@.content.label())),
        member(v@, "content"@) == Some(e@.content.json()),
        member(v@, "sender"@) == Some(Json::Text(e@.sender)),
        member(v@, "room_id"@) == text_member(e@.room_id),
        member(v@, "state_key"@) == text_member(e@.state_key),
        member(v@, "unsigned"@) == e@.unsigned,
        member(v@, "redacts"@) == text_member(e@.redacts),
        member(v@, "origin_server_ts"@) == (match e@.origin_server_ts {
            Some(ts) => Some(Json::Integer(ts as int)),
            None => None,
        }),
        forall|name: Seq<char>|
            (#[trigger] member(v@, name)) is Some ==> name == "type"@ || name == "content"@ || name
                == "sender"@ || name == "room_id"@ || name == "state_key"@ || name == "unsigned"@
                || name == "redacts"@ || name == "origin_server_ts"@,
{
    lemma_names();
}

/// What an event is taken to say is what its fields hold.
pub proof fn law_event_fields(e: Event)
    ensures
        e@.content == e.event_content@,
        e@.sender == e.sender@,
        e@.room_id is Some == e.room_id is Some,
        e.room_id is Some ==> e@.room_id->0 == e.room_id->0@,
        e@.state_key is Some == e.state_key is Some,
        e.state_key is Some ==> e@.state_key->0 == e.state_key->0@,
        e@.unsigned is Some == e.unsigned is Some,
        e.unsigned is Some ==> e@.unsigned->0 == e.unsigned->0@,
        e@.redacts is Some == e.redacts is Some,
        e.redacts is Some ==> e@.redacts->0 == e.redacts->0@,
        e@.origin_server_ts == e.origin_server_ts,
{
}

/// An event is made ready to be stored as it is, with the verdict on it, where it can be named and its content
/// has the form of its type.
pub proof fn law_made_ready(
    inner: VersionedPdu,
    status: AuthStatus,
    r: Option<StoredPdu>,
)
    requires
        call_ensures(StoredPdu::new, (inner, status), r),
    ensures
        r is Some <==> inner@.event_id() is Some && inner@.content.well_labelled(),
        r is Some ==> r->0@.pdu == inner@ && (r->0@.passed <==> status == AuthStatus::Pass)
            && inner@.event_id() == Some(r->0@.id()),
{
}

/// Memberships are known by their names.
pub proof fn law_memberships_named(
    m: &Membership,
    name: &'static str,
    s: &str,
    r: Result<Membership, crate::events::room::InvalidMembership>,
)
    requires
        call_ensures(Membership::name, (m,), name),
        call_ensures(Membership::parse, (s,), r),
    ensures
        name@ == (match *m {
            Membership::Invite => "invite"@,
            Membership::Join => "join"@,
            Membership::Knock => "knock"@,
            Membership::Leave => "leave"@,
            Membership::Ban => "ban"@,
        }),
        s@ == name@ ==> r is Ok && r->Ok_0 == *m,
        r is Ok <==> s@ == "invite"@ || s@ == "join"@ || s@ == "knock"@ || s@ == "leave"@ || s@
            == "ban"@,
{
    crate::events::room::law_membership_names(*m);
    crate::events::room::law_membership_names(Membership::Invite);
    crate::events::room::law_membership_names(Membership::Join);
    crate::events::room::law_membership_names(Membership::Knock);
    crate::events::room::law_membership_names(Membership::Leave);
    crate::events::room::law_membership_names(Membership::Ban);
}

/// Who is typing is shown as a list of users, each once.
pub proof fn law_typing_shown(t: &crate::events::ephemeral::Typing, v: JsonValue)
    requires
        call_ensures(crate::events::ephemeral::Typing::to_json, (t,), v),
    ensures
        only(v@, "user_ids"@),
        exists|order: Seq<Seq<char>>| #[trigger]
            order.no_duplicates() && order.to_set() == t.user_ids@ && lists(
                member(v@, "user_ids"@),
                order,
            ),
{
    let order = choose|order: Seq<Seq<char>>|
        order.no_duplicates() && order.to_set() == t@ && v@
            == #[trigger] crate::events::ephemeral::typing_json(order);
    assert(order.no_duplicates());
    assert(lists(member(v@, "user_ids"@), order));
}

} // verus!
