use kerux::dict::{Dict, KeySet};
use kerux::events::pdu::StoredPdu;
use kerux::events::room::{
    Create, GuestAccess, GuestAccessType, HistoryVisibility, HistoryVisibilityType, JoinRule,
    JoinRules, Member, Membership, Name, Notifications, PowerLevels, PreviousRoom, Redaction, Topic,
};
use kerux::events::room_version::v4::{PduV4, UnhashedPdu};
use kerux::events::room_version::VersionedPdu;
use kerux::events::{ContentKind, EventContent, EventType};
use kerux::json::JsonValue;
use kerux::server_api::server_request;
use kerux::sign::{sign_json, Key};
use kerux::state::order::{sort_keys, SortKey};
use kerux::storage::password::{read_settings, PasswordHash};
use kerux::storage::postgres::{
    handle_event, member_counts, prev_event_ids, CountRow, DepthRow, RowChange,
};
use kerux::storage::sled::{
    event_name, next_ordering_key, ordering_key, plan_addition, read_ordering_key, starts_room,
    txn_name, Depth, Ephemeral,
};
use kerux::storage::{query_after_wait, should_wait, EventQuery, QueryType};
use kerux::text::{
    find_part, joined, read_number, split_once, starts_with, to_hex, to_hex_padded,
    trim_start_matches,
};
use kerux::util::mxid::MxidError;
use kerux::util::storage::AddEventError;
use kerux::util::MatrixId;
use kerux::validate::auth::AuthStatus;
use std::convert::TryFrom;

fn alice() -> MatrixId {
    MatrixId::new("alice", "example.org").unwrap()
}

#[test]
fn texts_are_taken_apart() {
    assert_eq!(joined("ab", "c"), "abc");
    assert_eq!(split_once("a:b:c", ':'), Some(("a".to_string(), "b:c".to_string())));
    assert_eq!(split_once("abc", ':'), None);
    assert!(starts_with("Bearer x", "Bearer "));
    assert!(!starts_with("Bear", "Bearer "));
    assert_eq!(trim_start_matches("aaab", "a"), "b");
    assert_eq!(trim_start_matches("b", ""), "b");
    assert_eq!(find_part("a=1&b=2&b=3", '&', "b="), Some("b=2".to_string()));
    assert_eq!(find_part("a=1", '&', "b="), None);
}

#[test]
fn numbers_in_hexadecimal() {
    assert_eq!(to_hex(0, false), "0");
    assert_eq!(to_hex(u64::MAX, false), "ffffffffffffffff");
    assert_eq!(to_hex(0x1a2b, true), "1A2B");
    assert_eq!(to_hex_padded(0x1a2b, 8, true), "00001A2B");
    assert_eq!(to_hex_padded(0x1a2b, 2, false), "2b");
}

#[test]
fn identifiers_are_checked() {
    let verdict = |text: &str| MatrixId::parse(text).map(|id| id.to_string());
    assert_eq!(verdict("@alice:example.org"), Ok("@alice:example.org".to_string()));
    assert_eq!(verdict("alice:example.org"), Err(MxidError::NoLeadingAt));
    assert_eq!(verdict(""), Err(MxidError::NoLeadingAt));
    assert_eq!(verdict("@alice"), Err(MxidError::WrongNumberOfColons));
    assert_eq!(verdict("@alice:example.org:80"), Err(MxidError::WrongNumberOfColons));
    assert_eq!(verdict("@Alice:example.org"), Err(MxidError::InvalidChar));
    assert_eq!(verdict("@alice:exa mple.org"), Err(MxidError::InvalidDomain));
    assert_eq!(verdict("@alice:"), Err(MxidError::InvalidDomain));
    let long = "a".repeat(242);
    assert!(MatrixId::new(&long, "example.org").is_ok());
    assert!(matches!(
        MatrixId::new(&"a".repeat(243), "example.org"),
        Err(MxidError::TooLong)
    ));
    assert!(MatrixId::try_from("@a-_.=/9:h".to_string()).is_ok());
    assert!(MatrixId::try_from("@a b:h".to_string()).is_err());
    assert_eq!(alice().localpart(), "alice");
    assert_eq!(alice().domain(), "example.org");
    assert_eq!(alice().clone_inner(), "@alice:example.org");
    alice().assert_valid();
    assert_eq!(MatrixId::validate_parts("alice", "example.org"), Ok(()));
    assert_eq!(MatrixId::validate_all("@alice:example.org"), Ok(()));
    assert_eq!(MxidError::NoLeadingAt.message(), "A Matrix ID must begin with an '@'.");
    assert_eq!(MxidError::InvalidDomain.message(), "A Matrix ID must contain a valid domain name.");
    assert_eq!(
        MxidError::WrongNumberOfColons.message(),
        "A Matrix ID must contain exactly one colon."
    );
    assert!(MxidError::TooLong.message().starts_with("A Matrix ID can only be 255 characters"));
}

#[test]
fn dictionaries_hold_one_value_for_a_key() {
    let mut d: Dict<String, u32> = Dict::new();
    d.insert("a".to_string(), 1);
    d.insert("b".to_string(), 2);
    d.insert("a".to_string(), 3);
    assert_eq!(d.len(), 2);
    assert_eq!(d.get(&"a".to_string()), Some(&3));
    assert!(d.contains(&"b".to_string()));
    assert_eq!(d.remove(&"a".to_string()), Some(3));
    assert_eq!(d.remove(&"a".to_string()), None);
    let (key, value) = d.entry(0);
    assert_eq!((key.as_str(), *value), ("b", 2));
    let mut s: KeySet<String> = KeySet::new();
    assert!(s.insert("a".to_string()));
    assert!(!s.insert("a".to_string()));
    assert_eq!(s.len(), 1);
    s.remove(&"a".to_string());
    assert!(!s.contains(&"a".to_string()));
}

#[test]
fn json_values() {
    let mut v = JsonValue::object();
    v.insert("b", JsonValue::text("x"));
    v.insert("a", JsonValue::integer(-1));
    let mut list = JsonValue::array();
    list.push(JsonValue::bool(true));
    list.push(JsonValue::null());
    v.insert("c", list);
    assert_eq!(v.canonical(), Some("{\"a\":-1,\"b\":\"x\",\"c\":[true,null]}".to_string()));
    assert!(v.same(&v.clone()));
    assert!(!v.same(&JsonValue::object()));
    assert_eq!(v.get("b").unwrap().as_str(), Some("x"));
    assert!(v.get("z").is_none());
    assert!(JsonValue::text("x").get("z").is_none());
    assert!(JsonValue::text("x").keys().is_none());
    let mut keys = v.keys().unwrap();
    keys.sort();
    assert_eq!(keys, vec!["a", "b", "c"]);
    assert!(v.as_str().is_none());
    let fraction = JsonValue::new(serde_json::from_str("1.5").unwrap());
    assert_eq!(fraction.canonical(), None);
}

fn unhashed(content: EventContent, state_key: Option<&str>) -> UnhashedPdu {
    UnhashedPdu {
        event_content: content,
        room_id: "!r:example.org".to_string(),
        sender: alice(),
        state_key: state_key.map(String::from),
        unsigned: None,
        redacts: None,
        origin: "example.org".to_string(),
        origin_server_ts: 5,
        prev_events: vec!["$p".to_string()],
        depth: 1,
        auth_events: Vec::new(),
    }
}

fn name(text: &str) -> EventContent {
    Name { name: text.to_string() }.into_content()
}

#[test]
fn events_are_named_by_their_hash() {
    let pdu = unhashed(name("n"), Some("")).finalize();
    assert_eq!(pdu.hashes.sha256, "IP2YykT6u6cq0fsZye34l6QysrgCaeWN9FI7i2xPpRw");
    assert_eq!(pdu.event_id(), "$porzu4KvsGpXMLNy48DNwbGIXYZGsmCfXaOdXj68Uyc");
    let id = pdu.event_id();
    let mut signed = unhashed(name("n"), Some("")).finalize();
    let mut signatures: Dict<String, JsonValue> = Dict::new();
    signatures.insert("example.org".to_string(), JsonValue::object());
    signed.signatures = Some(signatures);
    signed.unsigned = Some(JsonValue::object());
    assert_eq!(signed.event_id(), id);
    assert!(signed.to_json().get("signatures").unwrap().get("example.org").is_some());
    let redacted: PduV4 = signed.redact();
    assert_eq!(redacted.event_id(), id);
    assert!(redacted.unsigned.is_none());
    assert_ne!(unhashed(name("m"), Some("")).finalize().event_id(), id);
    // what is not signed plays no part in the hash
    let mut other = unhashed(name("n"), Some(""));
    other.unsigned = Some(JsonValue::text("u"));
    assert_eq!(VersionedPdu::V4(other.finalize()).event_id(), id);
    let fraction = JsonValue::new(serde_json::from_str("1.5").unwrap());
    let content = EventContent::Unknown { ty: "x".to_string(), content: fraction };
    assert!(unhashed(content, None).try_finalize().is_none());
}

#[test]
fn contents_in_json() {
    let show = |c: &EventContent| c.content_as_json().into_inner().to_string();
    let mut extra: Dict<String, JsonValue> = Dict::new();
    extra.insert("m.federate".to_string(), JsonValue::bool(false));
    let create = EventContent::Create(Create {
        creator: alice(),
        room_version: Some("4".to_string()),
        predecessor: Some(PreviousRoom {
            room_id: "!o:example.org".to_string(),
            event_id: "$o".to_string(),
        }),
        extra,
    });
    assert_eq!(
        show(&create),
        "{\"creator\":\"@alice:example.org\",\"m.federate\":false,\"predecessor\":\
         {\"event_id\":\"$o\",\"room_id\":\"!o:example.org\"},\"room_version\":\"4\"}"
    );
    assert_eq!(show(&create.redact()), "{\"creator\":\"@alice:example.org\"}");
    let rules = JoinRules { join_rule: JoinRule::Knock }.into_content();
    assert_eq!(show(&rules), "{\"join_rule\":\"knock\"}");
    assert_eq!(show(&rules.redact()), "{\"join_rule\":\"knock\"}");
    let history = HistoryVisibility { history_visibility: HistoryVisibilityType::WorldReadable };
    assert_eq!(show(&history.into_content()), "{\"history_visibility\":\"world_readable\"}");
    let guests = GuestAccess { guest_access: GuestAccessType::Forbidden }.into_content();
    assert_eq!(show(&guests), "{\"guest_access\":\"forbidden\"}");
    assert_eq!(show(&guests.redact()), "{}");
    assert_eq!(show(&Topic { topic: "t".to_string() }.into_content()), "{\"topic\":\"t\"}");
    assert_eq!(show(&name("n").redact()), "{}");
    assert_eq!(name("n").redact().get_type(), "m.room.name");
    let member = Member {
        avatar_url: Some("mxc://a".to_string()),
        displayname: None,
        membership: Membership::Ban,
        is_direct: Some(true),
    }
    .into_content();
    assert_eq!(
        show(&member),
        "{\"avatar_url\":\"mxc://a\",\"is_direct\":true,\"membership\":\"ban\"}"
    );
    assert_eq!(show(&member.redact()), "{\"membership\":\"ban\"}");
    let redaction = Redaction { reason: Some("r".to_string()) }.into_content();
    assert_eq!(show(&redaction), "{\"reason\":\"r\"}");
    assert_eq!(redaction.get_type(), "m.room.redaction");
    assert_eq!(show(&redaction.redact()), "{}");
    let mut content = JsonValue::object();
    content.insert("aliases", JsonValue::array());
    content.insert("other", JsonValue::null());
    let aliases = EventContent::Unknown { ty: "m.room.aliases".to_string(), content };
    assert!(aliases.is_well_labelled());
    assert_eq!(show(&aliases.redact()), "{\"aliases\":[]}");
}

#[test]
fn levels_left_out_have_defaults() {
    let mut levels = PowerLevels::default();
    levels.ban = None;
    levels.kick = Some(60);
    levels.redact = Some(70);
    levels.state_default = None;
    levels.users_default = None;
    levels.events_default = None;
    levels.invite = None;
    levels.users.insert(alice(), 100);
    levels.events.insert("m.room.name".to_string(), 30);
    assert_eq!(levels.ban(), 50);
    assert_eq!(levels.invite(), 50);
    assert_eq!(levels.kick(), 60);
    assert_eq!(levels.redact(), 70);
    levels.redact = None;
    assert_eq!(levels.redact(), 50);
    assert_eq!(levels.state_default(), 50);
    assert_eq!(levels.events_default(), 0);
    assert_eq!(levels.users_default(), 0);
    assert_eq!(levels.notifications(), Notifications { room: 50 });
    assert_eq!(levels.get_user_level(&alice()), 100);
    assert_eq!(levels.get_user_level(&MatrixId::new("bob", "example.org").unwrap()), 0);
    assert_eq!(levels.get_event_level("m.room.name", true), 30);
    assert_eq!(levels.get_event_level("m.room.topic", true), 50);
    assert_eq!(levels.get_event_level("m.room.topic", false), 0);
    levels.notifications = Some(Notifications { room: 1 });
    assert_eq!(
        levels.to_json().into_inner()["notifications"].to_string(),
        "{\"room\":1}"
    );
    let redacted = match EventContent::PowerLevels(levels).redact() {
        EventContent::PowerLevels(levels) => levels,
        _ => panic!("another type"),
    };
    assert_eq!(redacted.kick, Some(60));
    assert!(redacted.notifications.is_none());
    let none = PowerLevels::no_event_default_levels(&alice());
    assert_eq!(none.get_user_level(&alice()), 100);
    assert_eq!(none.get_event_level("m.room.name", true), 0);
}

#[test]
fn memberships_have_names() {
    let all = vec![
        Membership::Ban,
        Membership::Invite,
        Membership::Join,
        Membership::Knock,
        Membership::Leave,
    ];
    for m in all {
        assert_eq!(m.to_string().parse::<Membership>().unwrap(), m);
    }
    assert_eq!("joined".parse::<Membership>().unwrap_err().0, "joined");
}

#[test]
fn event_types_have_names() {
    let known = vec![
        ("m.room.create", ContentKind::Create),
        ("m.room.join_rules", ContentKind::JoinRules),
        ("m.room.history_visibility", ContentKind::HistoryVisibility),
        ("m.room.guest_access", ContentKind::GuestAccess),
        ("m.room.name", ContentKind::Name),
        ("m.room.topic", ContentKind::Topic),
        ("m.room.power_levels", ContentKind::PowerLevels),
        ("m.room.member", ContentKind::Member),
        ("m.room.redaction", ContentKind::Redaction),
    ];
    for (text, kind) in known {
        assert_eq!(ContentKind::of(text), Some(kind));
    }
    assert_eq!(ContentKind::of("m.room.message"), None);
    assert_eq!(Name::event_type(), "m.room.name");
    assert_eq!(Name::from_content(name("n")).ok().unwrap().name, "n");
    assert!(Topic::from_content(name("n")).is_err());
    let hidden = EventContent::Unknown {
        ty: "m.room.name".to_string(),
        content: JsonValue::object(),
    };
    assert!(!hidden.is_well_labelled());
}

#[test]
fn stored_events_keep_what_they_hold() {
    let pdu = VersionedPdu::V4(unhashed(name("n"), Some("")).finalize());
    let stored = StoredPdu::new(pdu, AuthStatus::Fail).unwrap();
    assert!(!stored.did_pass_auth());
    assert_eq!(stored.room_id(), "!r:example.org");
    assert_eq!(stored.sender().as_str(), "@alice:example.org");
    assert_eq!(stored.state_key(), Some(""));
    assert!(stored.unsigned().is_none());
    assert!(stored.redacts().is_none());
    assert_eq!(stored.origin(), "example.org");
    assert_eq!(stored.origin_server_ts(), 5);
    assert_eq!(stored.prev_events(), &vec!["$p".to_string()]);
    assert!(stored.auth_events().is_empty());
    assert_eq!(stored.event_id(), stored.inner().event_id());
    let event = stored.to_client_format();
    assert_eq!(event.room_id.as_deref(), Some("!r:example.org"));
    assert_eq!(event.origin_server_ts, Some(5));
}

fn new_key() -> Vec<u8> {
    let rng = ring::rand::SystemRandom::new();
    ring::signature::Ed25519KeyPair::generate_pkcs8(&rng).unwrap().as_ref().to_vec()
}

#[test]
fn keys_sign_json() {
    let bytes = new_key();
    let key = Key::from_file("ed25519:auto", bytes.clone()).unwrap();
    assert_eq!(key.ty(), "ed25519");
    assert!(Key::from_file("rsa:auto", bytes.clone()).is_none());
    assert!(Key::from_file("ed25519", bytes.clone()).is_none());
    assert!(Key::from_file("ed25519:auto", vec![1, 2, 3]).is_none());
    let signature = key.sign(b"{}").unwrap();
    let pair = ring::signature::Ed25519KeyPair::from_pkcs8(&bytes).unwrap();
    assert_eq!(signature, pair.sign(b"{}").as_ref().to_vec());
    let mut keys: Dict<String, Key> = Dict::new();
    keys.insert("ed25519:auto".to_string(), key);
    let signatures = sign_json(&JsonValue::object(), &keys).unwrap();
    let wanted = base64::encode_config(pair.sign(b"{}").as_ref(), base64::URL_SAFE_NO_PAD);
    assert_eq!(signatures.get(&"ed25519:auto".to_string()), Some(&wanted));
    let body = JsonValue::object();
    let headers =
        server_request("GET", "/path?q", "example.org", "other.org", Some(&body), &keys).unwrap();
    let text = "{\"content\":{},\"destination\":\"other.org\",\"method\":\"GET\",\
                \"origin\":\"example.org\",\"uri\":\"/path?q\"}";
    let sig = base64::encode_config(pair.sign(text.as_bytes()).as_ref(), base64::URL_SAFE_NO_PAD);
    assert_eq!(headers, vec![format!("origin=example.org,key=ed25519:auto,sig={}", sig)]);
    keys.insert("ed25519:bad".to_string(), Key::Ed25519(vec![0]));
    assert!(sign_json(&JsonValue::object(), &keys).is_none());
    assert!(server_request("GET", "/", "a", "b", None, &keys).is_none());
}

#[test]
fn positions_are_kept_in_order() {
    assert_eq!(ordering_key(0x01020304), vec![0, 1, 2, 3, 4]);
    assert_eq!(read_ordering_key(&[0, 1, 2, 3, 4]), Some(0x01020304));
    assert_eq!(read_ordering_key(b"depth"), None);
    assert_eq!(read_ordering_key(&[0, 1]), None);
    assert!(ordering_key(255) < ordering_key(256));
    assert_eq!(next_ordering_key(None), Some(ordering_key(0)));
    assert_eq!(next_ordering_key(Some(&ordering_key(255))), Some(ordering_key(256)));
    assert_eq!(next_ordering_key(Some(&ordering_key(u32::MAX))), None);
    assert_eq!(next_ordering_key(Some(b"depth")), None);
    assert_eq!(event_name("!r:h", "$e"), "!r:h_$e");
    assert_eq!(txn_name(255, "t"), "00000000-0000-0000-0000-0000000000ff_t");
}

#[test]
fn the_deepest_events_are_kept() {
    let d = Depth::after(None, 3, "$a");
    assert_eq!((d.depth, d.event_ids.len()), (3, 1));
    let d = Depth::after(Some(d), 2, "$b");
    assert!(d.event_ids.contains(&"$a".to_string()) && d.event_ids.len() == 1);
    let d = Depth::after(Some(d), 3, "$c");
    assert_eq!(d.event_ids.len(), 2);
    let d = Depth::after(Some(d), 4, "$d");
    assert_eq!((d.depth, d.event_ids.len()), (4, 1));
    assert!(d.event_ids.contains(&"$d".to_string()));
}

#[test]
fn what_is_kept_while_the_server_runs() {
    let mut e = Ephemeral::default();
    assert!(e.get("m.typing", 0).is_none());
    e.set_typing(&alice(), true, 100, 50);
    assert_eq!(e.get_typing(149).user_ids.len(), 1);
    assert_eq!(e.get_typing(150).user_ids.len(), 0);
    assert_eq!(
        e.get("m.typing", 60).unwrap().into_inner().to_string(),
        "{\"user_ids\":[\"@alice:example.org\"]}"
    );
    e.set("m.receipt", Some(JsonValue::object()));
    assert!(e.get("m.receipt", 0).is_some());
    assert_eq!(e.get_all(60).len(), 2);
    e.set("m.receipt", None);
    assert!(e.get("m.receipt", 0).is_none());
    e.set_typing(&alice(), false, 0, 60);
    assert_eq!(e.get_typing(60).user_ids.len(), 0);
    e.set_typing(&alice(), true, 1, u64::MAX);
    assert_eq!(e.get_typing(u64::MAX - 1).user_ids.len(), 1);
}

fn stored(content: EventContent, state_key: Option<&str>) -> StoredPdu {
    StoredPdu::new(VersionedPdu::V4(unhashed(content, state_key).finalize()), AuthStatus::Pass)
        .unwrap()
}

fn member(membership: Membership) -> EventContent {
    Member { avatar_url: None, displayname: None, membership, is_direct: None }.into_content()
}

#[test]
fn rows_follow_the_events() {
    let joined = stored(member(Membership::Join), Some("@bob:example.org"));
    match handle_event(&joined) {
        RowChange::SetMembership { user_id, room_id, membership, event_id } => {
            assert_eq!(user_id, "@bob:example.org");
            assert_eq!(room_id, "!r:example.org");
            assert_eq!(membership, "join");
            assert_eq!(event_id, joined.event_id());
        }
        _ => panic!("another change"),
    }
    let left = stored(member(Membership::Leave), Some("@bob:example.org"));
    assert!(matches!(handle_event(&left), RowChange::RemoveMembership { .. }));
    let create = EventContent::Create(Create {
        creator: alice(),
        room_version: None,
        predecessor: None,
        extra: Dict::new(),
    });
    match handle_event(&stored(create, Some(""))) {
        RowChange::AddRoom { room_id } => assert_eq!(room_id, "!r:example.org"),
        _ => panic!("another change"),
    }
    assert!(matches!(handle_event(&stored(name("n"), Some(""))), RowChange::Nothing));
    let rows = vec![
        CountRow { membership: "invite".to_string(), count: 2 },
        CountRow { membership: "join".to_string(), count: 5 },
        CountRow { membership: "ban".to_string(), count: 7 },
    ];
    assert_eq!(member_counts(&rows), (5, 2));
    assert_eq!(member_counts(&Vec::new()), (0, 0));
    let rows = vec![
        DepthRow { depth: 3, event_id: "$a".to_string() },
        DepthRow { depth: 3, event_id: "$b".to_string() },
    ];
    assert_eq!(
        prev_event_ids(&rows),
        Some((3, vec!["$a".to_string(), "$b".to_string()]))
    );
    assert_eq!(prev_event_ids(&Vec::new()), None);
}

#[test]
fn only_timelines_are_waited_for() {
    let query = |query_type| EventQuery {
        query_type,
        room_id: "!r:example.org",
        senders: &[],
        not_senders: &[],
        types: &[],
        not_types: &[],
        contains_json: None,
    };
    let timeline = query(QueryType::Timeline { from: 1, to: Some(2) });
    let state = query(QueryType::State { at: None, state_keys: &[], not_state_keys: &[] });
    assert!(should_wait(true, &Vec::new(), &timeline));
    assert!(!should_wait(false, &Vec::new(), &timeline));
    assert!(!should_wait(true, &Vec::new(), &state));
    assert!(!should_wait(true, &vec![stored(name("n"), None)], &timeline));
    match query_after_wait(timeline, 9).query_type {
        QueryType::Timeline { from, to } => assert_eq!((from, to), (9, None)),
        _ => panic!("another type"),
    }
}

#[test]
fn reasons_to_refuse_an_event() {
    assert_eq!(
        AddEventError::InvalidEvent("x".to_string()).message(),
        "The event to be added was invalid."
    );
    assert!(!AddEventError::UserBanned.message().is_empty());
}

#[test]
fn additions_are_planned() {
    let create = stored(
        EventContent::Create(Create {
            creator: alice(),
            room_version: None,
            predecessor: None,
            extra: Dict::new(),
        }),
        Some(""),
    );
    assert!(starts_room(&create, true).unwrap());
    assert!(starts_room(&create, false).unwrap());
    let first = plan_addition(&create, None, None).unwrap();
    assert_eq!(first.key, ordering_key(0));
    assert_eq!(first.name, event_name("!r:example.org", create.event_id()));
    let named = stored(name("n"), Some(""));
    assert!(!starts_room(&named, true).unwrap());
    assert!(matches!(starts_room(&named, false), Err(kerux::error::ErrorKind::RoomNotFound)));
    let second = plan_addition(&named, Some(&first.key), Some(first.depth)).unwrap();
    assert_eq!(second.key, ordering_key(1));
    assert_eq!(second.depth.event_ids.len(), 2);
    let again = plan_addition(&create, Some(&ordering_key(8)), None).unwrap();
    assert_eq!(again.key, ordering_key(9));
    assert!(plan_addition(&named, Some(&ordering_key(u32::MAX)), None).is_none());
}

#[test]
fn hashes_that_were_kept() {
    let kept = "$argon2i$v=19$m=4096,t=3,p=1$c2FsdHNhbHQ$llvUdqp69y2RB629dCuG42kR5y+Occ/ziKV5kn3rSOM";
    let hash = PasswordHash::from_stored(kept.to_string()).unwrap();
    assert_eq!(hash.as_str(), kept);
    assert!(hash.accepts("password"));
    assert!(!hash.accepts("drowssap"));
    assert!(PasswordHash::from_stored("password".to_string()).is_none());
    assert!(PasswordHash::verify_stored(Some(kept.to_string()), "password"));
    assert!(!PasswordHash::verify_stored(Some(kept.to_string()), "drowssap"));
    assert!(!PasswordHash::verify_stored(Some("password".to_string()), "password"));
    let broken = "$argon2i$v=19$m=4096,t=3,p=1$x";
    assert!(!PasswordHash::verify_stored(Some(broken.to_string()), "password"));
    assert!(!PasswordHash::verify_stored(None, "password"));
    // without a hash, with no base64, and with a setting too few or too many
    for broken in [
        "$argon2i$v=19$m=4096,t=3,p=1$c2FsdHNhbHQ$",
        "$argon2i$v=19$m=4096,t=3,p=1$c2FsdHNhbHQ$!",
        "$argon2i$v=19$m=4096,t=3$c2FsdHNhbHQ$llvUdqp69y2RB629dCuG42kR5y+Occ/ziKV5kn3rSOM",
        "$argon2i$v=19$m=4096,t=3,p=1,x=1$c2FsdHNhbHQ$llvUdqp69y2RB629dCuG42kR5y+Occ/ziKV5kn3rSOM",
    ] {
        assert!(!PasswordHash::verify_stored(Some(broken.to_string()), "password"));
    }
    let made = PasswordHash::salted("secret").unwrap();
    assert!(made.accepts("secret") && !made.accepts("password"));
    assert_ne!(made.as_str(), PasswordHash::salted("secret").unwrap().as_str());
}

#[test]
fn hashes_with_other_settings() {
    let config = argon2::Config {
        variant: argon2::Variant::Argon2id,
        mem_cost: 64,
        time_cost: 2,
        lanes: 2,
        thread_mode: argon2::ThreadMode::Parallel,
        ..argon2::Config::default()
    };
    let kept = argon2::hash_encoded(b"secret", b"saltsalt", &config).unwrap();
    assert_eq!(read_settings(&kept), Some((64, 2, 2)));
    assert!(PasswordHash::verify_stored(Some(kept.clone()), "secret"));
    assert!(!PasswordHash::verify_stored(Some(kept.clone()), "password"));
    assert_eq!(PasswordHash::from_stored(kept.clone()).unwrap().as_str(), kept);
    // more threads or memory than a check may take
    let lanes = kept.replace("p=2", "p=1025");
    assert_eq!(read_settings(&lanes), Some((64, 2, 1025)));
    assert!(PasswordHash::from_stored(lanes).is_none());
    assert!(PasswordHash::from_stored(kept.replace("m=64", "m=4194305")).is_none());
    assert!(PasswordHash::from_stored(kept.replace("m=64", "m=4294967296")).is_none());
    let made = PasswordHash::salted("secret").unwrap();
    assert_eq!(read_settings(made.as_str()), Some((4096, 3, 1)));
}

#[test]
fn numbers_are_read() {
    assert_eq!(read_number("0"), Some(0));
    assert_eq!(read_number("007"), Some(7));
    assert_eq!(read_number("+12"), Some(12));
    assert_eq!(read_number("4294967295"), Some(4294967295));
    for text in ["", "+", "++1", "-1", "1a", " 1", "4294967296", "99999999999999999999999"] {
        assert_eq!(read_number(text), None);
        assert!(text.parse::<u32>().is_err());
    }
}

#[test]
fn keys_are_put_in_one_order() {
    let key = |rank: usize, ts: i64, id: &str| SortKey { rank, ts, id: id.to_string() };
    let sorted = sort_keys(vec![key(2, 0, "$a"), key(1, 5, "$d"), key(1, 3, "$c"), key(1, 3, "$b")]);
    let ids: Vec<&str> = sorted.iter().map(|k| k.id.as_str()).collect();
    assert_eq!(ids, vec!["$b", "$c", "$d", "$a"]);
}
