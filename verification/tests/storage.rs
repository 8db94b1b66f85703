use kerux::dict::Duplicate;
use kerux::error::ErrorKind;
use kerux::events::pdu::StoredPdu;
use kerux::events::room::{Create, Member, Membership, Name};
use kerux::events::room_version::v4::UnhashedPdu;
use kerux::events::room_version::VersionedPdu;
use kerux::events::{Event, EventContent};
use kerux::json::JsonValue;
use kerux::storage::mem::MemStorage;
use kerux::storage::{Batch, EventQuery, QueryType, Storage};
use kerux::util::storage::{add_event_unchecked_at, StorageExt};
use kerux::util::MatrixId;
use kerux::validate::auth::AuthStatus;

fn user_accounts<S: Storage>(db: &mut S) {
    db.create_user("alice", "password1").expect("failed to create first user");
    db.create_user("alice", "password1").expect_err("succeeded making same user twice");
    db.create_user("alice", "password2").expect_err("succeeded making same user twice");
    db.create_user("bob", "password1").expect("failed to create second user");

    assert!(db.verify_password("alice", "password1").unwrap() == true);
    assert!(db.verify_password("alice", "password2").unwrap() == false);
    assert!(db.verify_password("bob", "password1").unwrap() == true);
    assert!(db.verify_password("bob", "password2").unwrap() == false);

    let alice_token_1 = db.create_access_token("alice", "phone").expect("failed to create token");
    let alice_token_2 = db.create_access_token("alice", "laptop").expect("failed to create token");
    let bob_token_1 = db.create_access_token("bob", "laptop").expect("failed to create token");
    let bob_token_2 = db.create_access_token("bob", "phone").expect("failed to create token");
    db.create_access_token("nobody", "kjfnkfn").expect_err("succeeded making token for nobody");

    db.delete_access_token(alice_token_2).expect("failed to delete token");
    db.delete_access_token(bob_token_2).expect("failed to delete token");

    assert_eq!(db.try_auth(alice_token_1).expect("failed during auth").as_deref(), Some("alice"));
    assert_eq!(db.try_auth(alice_token_2).expect("failed during auth").as_deref(), None);
    assert_eq!(db.try_auth(bob_token_1).expect("failed during auth").as_deref(), Some("bob"));
    assert_eq!(db.try_auth(bob_token_2).expect("failed during auth").as_deref(), None);

    db.delete_all_access_tokens(alice_token_1).expect("failed to delete all tokens");
    assert_eq!(db.try_auth(alice_token_1).expect("failed during auth").as_deref(), None);
    assert_eq!(db.try_auth(bob_token_1).expect("failed during auth").as_deref(), Some("bob"));
}

#[test]
fn mem_backend_user_accounts() {
    let mut db = MemStorage::new();
    user_accounts(&mut db);
}

fn transactions<S: Storage>(db: &mut S) {
    db.create_user("alice", "password").unwrap();
    let token = db.create_access_token("alice", "phone").unwrap();
    assert_eq!(db.record_txn(token, String::from("txn1")).expect("failed to record transaction"), true);
    assert_eq!(db.record_txn(token, String::from("txn1")).expect("failed to record transaction"), false);
    assert_eq!(db.record_txn(token, String::from("txn2")).expect("failed to record transaction"), true);
}

#[test]
fn mem_backend_transactions() {
    let mut db = MemStorage::new();
    transactions(&mut db);
}

fn alice() -> MatrixId {
    MatrixId::new("alice", "example.org").unwrap()
}

fn bob() -> MatrixId {
    MatrixId::new("bob", "example.org").unwrap()
}

const ROOM: &str = "!room:example.org";

fn stored(content: EventContent, sender: MatrixId, state_key: Option<&str>, depth: i64) -> StoredPdu {
    let pdu = UnhashedPdu {
        event_content: content,
        room_id: ROOM.to_string(),
        sender,
        state_key: state_key.map(String::from),
        unsigned: None,
        redacts: None,
        origin: "example.org".to_string(),
        origin_server_ts: 7,
        prev_events: Vec::new(),
        depth,
        auth_events: Vec::new(),
    }
    .finalize();
    StoredPdu::new(VersionedPdu::V4(pdu), AuthStatus::Pass).unwrap()
}

fn create() -> EventContent {
    EventContent::Create(Create {
        creator: alice(),
        room_version: Some("4".to_string()),
        predecessor: None,
        extra: kerux::dict::Dict::new(),
    })
}

fn member(membership: Membership) -> EventContent {
    EventContent::Member(Member {
        avatar_url: None,
        displayname: None,
        membership,
        is_direct: None,
    })
}

fn name(text: &str) -> EventContent {
    EventContent::Name(Name { name: text.to_string() })
}

fn room_with_history() -> MemStorage {
    let mut db = MemStorage::new();
    let pdus = vec![
        stored(create(), alice(), Some(""), 0),
        stored(member(Membership::Join), alice(), Some("@alice:example.org"), 1),
        stored(name("one"), alice(), Some(""), 2),
        stored(member(Membership::Invite), alice(), Some("@bob:example.org"), 3),
        stored(name("two"), bob(), Some(""), 4),
    ];
    db.add_pdus(&pdus).unwrap();
    db
}

fn timeline<'a>(from: usize, to: Option<usize>) -> EventQuery<'a> {
    EventQuery {
        query_type: QueryType::Timeline { from, to },
        room_id: ROOM,
        senders: &[],
        not_senders: &[],
        types: &[],
        not_types: &[],
        contains_json: None,
    }
}

fn names(events: &[Event]) -> Vec<String> {
    events
        .iter()
        .map(|e| e.event_content.get_type().to_string())
        .collect()
}

#[test]
fn timeline_queries_return_a_range() {
    let db = room_with_history();
    let (all, end) = db.query_events(&timeline(0, None)).unwrap();
    assert_eq!(all.len(), 5);
    assert_eq!(end, 4);
    let (some, end) = db.query_events(&timeline(1, Some(2))).unwrap();
    assert_eq!(names(&some), vec!["m.room.member", "m.room.name"]);
    assert_eq!(end, 2);
    let (none, end) = db.query_events(&timeline(5, None)).unwrap();
    assert!(none.is_empty());
    assert_eq!(end, 4);
    let (none, end) = db.query_events(&timeline(0, Some(9))).unwrap();
    assert!(none.is_empty());
    assert_eq!(end, 9);
}

#[test]
fn exclusion_takes_priority() {
    let db = room_with_history();
    let a = alice();
    let mut query = timeline(0, None);
    let both = [&a];
    query.senders = &both;
    query.not_senders = &both;
    assert!(db.query_events(&query).unwrap().0.is_empty());
    let mut query = timeline(0, None);
    query.types = &["m.room.name", "m.room.create"];
    query.not_types = &["m.room.create"];
    assert_eq!(names(&db.query_events(&query).unwrap().0), vec!["m.room.name", "m.room.name"]);
}

#[test]
fn contents_are_matched_field_by_field() {
    let db = room_with_history();
    let mut query = timeline(0, None);
    let mut wanted = JsonValue::object();
    wanted.insert("membership", JsonValue::text("invite"));
    query.contains_json = Some(wanted);
    let (found, _) = db.query_events(&query).unwrap();
    assert_eq!(found.len(), 1);
    assert_eq!(found[0].state_key.as_deref(), Some("@bob:example.org"));
}

#[test]
fn state_queries_return_the_most_recent() {
    let db = room_with_history();
    let state = db.get_full_state(ROOM).unwrap();
    assert_eq!(
        names(&state),
        vec!["m.room.create", "m.room.member", "m.room.member", "m.room.name"]
    );
    match &state[3].event_content {
        EventContent::Name(n) => assert_eq!(n.name, "two"),
        _ => panic!("no name"),
    }
    let found = db.get_state_event(ROOM, "m.room.name", "").unwrap().unwrap();
    match found.event_content {
        EventContent::Name(n) => assert_eq!(n.name, "two"),
        _ => panic!("no name"),
    }
    assert!(db.get_state_event(ROOM, "m.room.topic", "").unwrap().is_none());
    let mut query = timeline(0, None);
    query.query_type = QueryType::State { at: Some(2), state_keys: &[""], not_state_keys: &[] };
    let (early, end) = db.query_events(&query).unwrap();
    assert_eq!(names(&early), vec!["m.room.create", "m.room.name"]);
    assert_eq!(end, 2);
}

#[test]
fn memberships_and_counts() {
    let db = room_with_history();
    assert_eq!(db.get_membership(&alice(), ROOM).unwrap(), Some(Membership::Join));
    assert_eq!(db.get_membership(&bob(), ROOM).unwrap(), Some(Membership::Invite));
    let carol = MatrixId::new("carol", "example.org").unwrap();
    assert_eq!(db.get_membership(&carol, ROOM).unwrap(), None);
    assert_eq!(db.get_room_member_counts(ROOM).unwrap(), (1, 1));
    assert_eq!(db.get_room_member_counts("!other:example.org").unwrap(), (0, 0));
    let by_user = db.get_memberships_by_user(&bob()).unwrap();
    assert_eq!(by_user.len(), 1);
    assert_eq!(by_user.get(&ROOM.to_string()), Some(&Membership::Invite));
}

#[test]
fn rooms_that_are_not_there() {
    let mut db = room_with_history();
    assert!(matches!(db.get_membership(&alice(), "!no:example.org"), Err(ErrorKind::RoomNotFound)));
    assert!(matches!(db.get_prev_events("!no:example.org"), Err(ErrorKind::RoomNotFound)));
    assert!(matches!(db.set_typing("!no:example.org", &alice(), true, 1, 0), Err(ErrorKind::RoomNotFound)));
    assert!(matches!(db.get_all_ephemeral("!no:example.org", 0), Err(ErrorKind::RoomNotFound)));
    assert!(db.get_pdu("!no:example.org", "$x").unwrap().is_none());
    let lost = stored(name("x"), alice(), Some(""), 0);
    let mut empty = MemStorage::new();
    assert!(matches!(empty.add_pdus(&vec![lost]), Err(ErrorKind::RoomNotFound)));
}

#[test]
fn deepest_events_come_first() {
    let mut db = room_with_history();
    let (ids, depth) = db.get_prev_events(ROOM).unwrap();
    assert_eq!(depth, 4);
    assert_eq!(ids.len(), 1);
    db.add_pdus(&vec![stored(name("three"), alice(), Some(""), 4)]).unwrap();
    let (ids, depth) = db.get_prev_events(ROOM).unwrap();
    assert_eq!(depth, 4);
    assert_eq!(ids.len(), 2);
    for id in ids.iter() {
        assert_eq!(db.get_pdu(ROOM, id).unwrap().unwrap().event_id(), id);
    }
}

#[test]
fn a_create_event_starts_the_room_afresh() {
    let mut db = room_with_history();
    db.add_pdus(&vec![stored(create(), alice(), Some(""), 0)]).unwrap();
    assert_eq!(db.query_events(&timeline(0, None)).unwrap().0.len(), 1);
    assert_eq!(db.get_rooms().unwrap(), vec![ROOM.to_string()]);
}

#[test]
fn unchecked_events_follow_the_deepest() {
    let mut db = room_with_history();
    let (prev, _) = db.get_prev_events(ROOM).unwrap();
    let event = Event {
        event_content: name("free"),
        sender: bob(),
        room_id: Some(ROOM.to_string()),
        state_key: Some(String::new()),
        unsigned: None,
        redacts: None,
        origin_server_ts: None,
    };
    let id = add_event_unchecked_at(&mut db, event, vec!["$auth".to_string()], 99).unwrap().unwrap();
    let pdu = db.get_pdu(ROOM, &id).unwrap().unwrap();
    assert!(pdu.did_pass_auth());
    assert_eq!(pdu.prev_events(), &prev);
    assert_eq!(pdu.auth_events(), &vec!["$auth".to_string()]);
    assert_eq!(pdu.depth(), 5);
    assert_eq!(pdu.origin_server_ts(), 99);
    let homeless = Event {
        event_content: name("free"),
        sender: bob(),
        room_id: None,
        state_key: None,
        unsigned: None,
        redacts: None,
        origin_server_ts: None,
    };
    assert!(db.add_event_unchecked(homeless, Vec::new()).unwrap().is_none());
    // even a create event is put behind what there is
    let second = Event {
        event_content: create(),
        sender: bob(),
        room_id: Some(ROOM.to_string()),
        state_key: Some(String::new()),
        unsigned: None,
        redacts: None,
        origin_server_ts: None,
    };
    let made = add_event_unchecked_at(&mut db, second, Vec::new(), 100).unwrap().unwrap();
    assert_eq!(db.get_prev_events(ROOM).unwrap(), (vec![made], 6));
    assert!(db.get_pdu(ROOM, &id).unwrap().is_some());
}

#[test]
fn profiles_and_account_data() {
    let mut db = MemStorage::new();
    assert!(db.get_profile("alice").unwrap().is_none());
    assert!(matches!(db.set_avatar_url("alice", "mxc://a"), Err(ErrorKind::UserNotFound)));
    db.create_user("alice", "password").unwrap();
    db.set_avatar_url("alice", "mxc://a").unwrap();
    db.set_display_name("alice", "Alice").unwrap();
    let profile = db.get_profile("alice").unwrap().unwrap();
    assert_eq!(profile.avatar_url.as_deref(), Some("mxc://a"));
    assert_eq!(profile.displayname.as_deref(), Some("Alice"));
    assert_eq!(db.get_user_account_data("alice").unwrap().len(), 0);
}

#[test]
fn typing_lasts_until_the_deadline() {
    let mut db = room_with_history();
    db.set_typing(ROOM, &alice(), true, 100, 1000).unwrap();
    let shown = db.get_ephemeral(ROOM, "m.typing", 1099).unwrap().unwrap().into_inner();
    assert_eq!(shown.to_string(), "{\"user_ids\":[\"@alice:example.org\"]}");
    let over = db.get_ephemeral(ROOM, "m.typing", 1100).unwrap().unwrap().into_inner();
    assert_eq!(over.to_string(), "{\"user_ids\":[]}");
    db.set_typing(ROOM, &alice(), false, 0, 1000).unwrap();
    let stopped = db.get_ephemeral(ROOM, "m.typing", 1000).unwrap().unwrap().into_inner();
    assert_eq!(stopped.to_string(), "{\"user_ids\":[]}");
}

#[test]
fn ephemeral_events_are_kept_by_type() {
    let mut db = room_with_history();
    let mut receipt = JsonValue::object();
    receipt.insert("$e", JsonValue::bool(true));
    db.set_ephemeral(ROOM, "m.receipt", Some(receipt.duplicate())).unwrap();
    assert!(db.get_ephemeral(ROOM, "m.receipt", 0).unwrap().unwrap().same(&receipt));
    let all = db.get_all_ephemeral(ROOM, 0).unwrap();
    assert_eq!(all.len(), 2);
    db.set_ephemeral(ROOM, "m.receipt", None).unwrap();
    assert!(db.get_ephemeral(ROOM, "m.receipt", 0).unwrap().is_none());
}

#[test]
fn batches_are_kept_by_name() {
    let mut db = MemStorage::new();
    assert!(db.get_batch("b").unwrap().is_none());
    let mut batch = Batch::default();
    batch.rooms.insert(ROOM.to_string(), 3);
    let _new = batch.invites.insert("!x:example.org".to_string());
    db.set_batch("b", batch).unwrap();
    let found = db.get_batch("b").unwrap().unwrap();
    assert_eq!(found.rooms.get(&ROOM.to_string()), Some(&3));
    assert!(found.invites.contains(&"!x:example.org".to_string()));
}

#[test]
fn test_users_have_the_password() {
    let mut db = MemStorage::new();
    db.create_test_users().unwrap();
    for name in ["alice", "bob", "carol"] {
        assert!(db.verify_password(name, "password").unwrap());
        assert!(!db.verify_password(name, "drowssap").unwrap());
    }
    assert!(matches!(db.create_test_users(), Err(ErrorKind::UsernameTaken)));
}

#[test]
fn test_users_before_a_taken_name_are_added() {
    for (taken, added) in [("alice", 0), ("bob", 1), ("carol", 2)] {
        let mut db = MemStorage::new();
        db.create_user(taken, "secret").unwrap();
        assert!(matches!(db.create_test_users(), Err(ErrorKind::UsernameTaken)));
        for (i, name) in ["alice", "bob", "carol"].iter().enumerate() {
            assert_eq!(db.verify_password(name, "password").unwrap(), i < added);
            let known = i < added || *name == taken;
            assert_eq!(db.get_profile(name).unwrap().is_some(), known);
        }
        assert!(db.verify_password(taken, "secret").unwrap());
    }
}

#[test]
fn contents_are_looked_at_last() {
    let db = room_with_history();
    let mut query = timeline(0, None);
    query.contains_json = Some(JsonValue::text("no object"));
    query.types = &["m.room.unheard_of"];
    assert!(db.query_pdus(&query).unwrap().0.is_empty());
    let pdus = db.query_pdus(&timeline(0, None)).unwrap().0;
    assert!(!pdus.is_empty());
    assert!(pdus.iter().all(|pdu| !query.matches(pdu.inner())));
    // a range without events
    let mut query = timeline(1000, None);
    query.contains_json = Some(JsonValue::null());
    assert!(db.query_pdus(&query).unwrap().0.is_empty());
}

#[test]
fn a_password_hash_that_cannot_be_read_accepts_nothing() {
    let mut db = MemStorage::new();
    assert!(!db.verify_password("alice", "password").unwrap());
    db.create_user("alice", "").unwrap();
    assert!(db.verify_password("alice", "").unwrap());
    assert!(!db.verify_password("alice", "x").unwrap());
}
