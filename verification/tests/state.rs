use kerux::dict::{Dict, Duplicate};
use kerux::error::ErrorKind;
use kerux::events::pdu::StoredPdu;
use kerux::events::room::{
    Create, JoinRule, JoinRules, Member, Membership, Name, PowerLevels, Topic,
};
use kerux::events::room_version::v4::UnhashedPdu;
use kerux::events::room_version::VersionedPdu;
use kerux::events::{EventContent, EventType};
use kerux::state::StateResolver;
use kerux::storage::mem::MemStorage;
use kerux::storage::Storage;
use kerux::util::storage::{add_event_at, calc_auth_events, NewEvent, StorageExt};
use kerux::util::MatrixId;
use kerux::validate::auth::{auth_check_v1, try_auth_check, AuthStatus};

struct TestRoom {
    room_id: String,
    /// depth -> list of events at that depth
    depth_map: Vec<Vec<String>>,
}

fn create_content(creator: &MatrixId) -> EventContent {
    EventContent::Create(Create {
        creator: creator.duplicate(),
        room_version: Some(String::from("4")),
        predecessor: None,
        extra: Dict::new(),
    })
}

impl TestRoom {
    /// must only be called once per test, because it uses the same room id every time
    fn create(db: &mut MemStorage, room_id: &str, creator: &MatrixId) -> Result<TestRoom, ErrorKind> {
        let creation = UnhashedPdu {
            event_content: create_content(creator),
            room_id: String::from(room_id),
            sender: creator.duplicate(),
            state_key: Some(String::new()),
            unsigned: None,
            redacts: None,
            origin: String::from("example.org"),
            origin_server_ts: 0,
            prev_events: Vec::new(),
            depth: 0,
            auth_events: Vec::new(),
        }
        .finalize();
        let creation_id = creation.event_id();
        db.add_pdus(&vec![
            StoredPdu::new(VersionedPdu::V4(creation), AuthStatus::Pass).unwrap(),
        ])?;
        Ok(TestRoom { room_id: room_id.to_owned(), depth_map: vec![vec![creation_id]] })
    }

    /// Like `kerux::util::storage::StorageExt::add_event`, but it allows you to specify depth,
    /// which you usually don't want, but is very useful for testing.
    fn add<T: EventType>(
        &mut self,
        db: &mut MemStorage,
        depth: usize,
        sender: &MatrixId,
        content: T,
        state_key: Option<&str>,
        state_resolver: &mut StateResolver,
    ) -> Result<String, ErrorKind> {
        let prev_depth = depth.checked_sub(1).unwrap();
        let prev_events = self.depth_map[prev_depth].clone();
        let state = state_resolver.resolve(db, &self.room_id, &prev_events)?;
        let new_event = NewEvent {
            event_content: content.into_content(),
            sender: sender.duplicate(),
            state_key: state_key.map(String::from),
            redacts: None,
            unsigned: None,
        };
        let auth_events = calc_auth_events(&new_event, &state);
        let pdu = VersionedPdu::V4(
            UnhashedPdu {
                event_content: new_event.event_content,
                room_id: self.room_id.clone(),
                sender: new_event.sender,
                state_key: new_event.state_key,
                unsigned: None,
                redacts: None,
                origin: String::from("example.org"),
                origin_server_ts: 0,
                prev_events,
                depth: depth as i64,
                auth_events,
            }
            .finalize(),
        );
        let event_id = pdu.event_id();
        if self.depth_map.len() == depth {
            self.depth_map.push(Vec::new());
        } else if self.depth_map.len() < depth {
            panic!("can't insert event there");
        }
        self.depth_map[depth].push(event_id.clone());
        let auth_status = auth_check_v1(db, &pdu, &state)?;
        db.add_pdus(&vec![StoredPdu::new(pdu, auth_status).unwrap()])?;
        Ok(event_id)
    }
}

fn linear_inner() -> Result<(), ErrorKind> {
    let mut db = MemStorage::new();
    let mut resolver = StateResolver::new();

    let alice = MatrixId::new("alice", "example.org").unwrap();
    let room_id = "!linear:example.org";
    let mut room = TestRoom::create(&mut db, room_id, &alice)?;
    let _alice_join = room.add(
        &mut db,
        1,
        &alice,
        Member {
            avatar_url: None,
            displayname: None,
            membership: Membership::Join,
            is_direct: Some(false),
        },
        Some(alice.as_str()),
        &mut resolver,
    )?;
    let name1 = room.add(
        &mut db,
        2,
        &alice,
        Name { name: String::from("one") },
        Some(""),
        &mut resolver,
    )?;

    let state1 = resolver.resolve(&db, room_id, &vec![name1.clone()])?;
    assert_eq!(state1.get_content::<Name, MemStorage>(&db, "")?.unwrap().name, "one");

    let name2 = room.add(
        &mut db,
        3,
        &alice,
        Name { name: String::from("two") },
        Some(""),
        &mut resolver,
    )?;
    let state2 = resolver.resolve(&db, room_id, &vec![name2])?;
    assert_eq!(state2.get_content::<Name, MemStorage>(&db, "")?.unwrap().name, "two");
    let state1 = resolver.resolve(&db, room_id, &vec![name1])?;
    assert_eq!(state1.get_content::<Name, MemStorage>(&db, "")?.unwrap().name, "one");
    Ok(())
}

#[test]
fn linear() {
    linear_inner().unwrap();
}

fn join() -> Member {
    Member {
        avatar_url: None,
        displayname: None,
        membership: Membership::Join,
        is_direct: None,
    }
}

fn levels_with(user: &MatrixId, level: u32) -> PowerLevels {
    let mut levels = PowerLevels::default();
    levels.users.insert(user.duplicate(), level);
    levels.users_default = Some(0);
    levels
}

fn forked_room(db: &mut MemStorage, resolver: &mut StateResolver) -> (TestRoom, MatrixId) {
    let alice = MatrixId::new("alice", "example.org").unwrap();
    let mut room = TestRoom::create(db, "!fork:example.org", &alice).unwrap();
    room.add(db, 1, &alice, join(), Some(alice.as_str()), resolver).unwrap();
    room.add(db, 2, &alice, levels_with(&alice, 100), Some(""), resolver).unwrap();
    (room, alice)
}

#[test]
fn branches_that_agree_are_merged() {
    let mut db = MemStorage::new();
    let mut resolver = StateResolver::new();
    let (mut room, alice) = forked_room(&mut db, &mut resolver);
    let name = room
        .add(&mut db, 3, &alice, Name { name: "left".to_string() }, Some(""), &mut resolver)
        .unwrap();
    let topic = room
        .add(&mut db, 3, &alice, Topic { topic: "right".to_string() }, Some(""), &mut resolver)
        .unwrap();
    let state = resolver
        .try_resolve(&db, "!fork:example.org", &vec![name.clone(), topic.clone()])
        .unwrap()
        .unwrap();
    assert_eq!(state.get(("m.room.name", "")), Some(name.as_str()));
    assert_eq!(state.get(("m.room.topic", "")), Some(topic.as_str()));
    let swapped = resolver
        .try_resolve(&db, "!fork:example.org", &vec![topic.clone(), name.clone(), topic.clone()])
        .unwrap()
        .unwrap();
    assert_eq!(swapped.get(("m.room.name", "")), Some(name.as_str()));
    assert_eq!(swapped.get(("m.room.topic", "")), Some(topic.as_str()));
    assert_eq!(
        swapped.get(("m.room.create", "")),
        Some(room.depth_map[0][0].as_str())
    );
}

#[test]
fn conflicting_names_are_settled_one_way() {
    let mut db = MemStorage::new();
    let mut resolver = StateResolver::new();
    let (mut room, alice) = forked_room(&mut db, &mut resolver);
    let left = room
        .add(&mut db, 3, &alice, Name { name: "left".to_string() }, Some(""), &mut resolver)
        .unwrap();
    let right = room
        .add(&mut db, 3, &alice, Name { name: "right".to_string() }, Some(""), &mut resolver)
        .unwrap();
    // same power levels event, same time: the greater identifier is applied last
    let winner = if left < right { right.clone() } else { left.clone() };
    for order in [vec![left.clone(), right.clone()], vec![right.clone(), left.clone()]] {
        let state = resolver.try_resolve(&db, "!fork:example.org", &order).unwrap().unwrap();
        assert_eq!(state.get(("m.room.name", "")), Some(winner.as_str()));
    }
    let mut fresh = StateResolver::new();
    let state = fresh.try_resolve(&db, "!fork:example.org", &vec![left, right]).unwrap().unwrap();
    assert_eq!(state.get(("m.room.name", "")), Some(winner.as_str()));
}

#[test]
fn conflicting_levels_are_settled_before_names() {
    let mut db = MemStorage::new();
    let mut resolver = StateResolver::new();
    let (mut room, alice) = forked_room(&mut db, &mut resolver);
    let mut changed = levels_with(&alice, 100);
    changed.invite = Some(7);
    let levels = room.add(&mut db, 3, &alice, changed, Some(""), &mut resolver).unwrap();
    let rules = room
        .add(
            &mut db,
            3,
            &alice,
            JoinRules { join_rule: JoinRule::Public },
            Some(""),
            &mut resolver,
        )
        .unwrap();
    let name = room
        .add(&mut db, 3, &alice, Name { name: "n".to_string() }, Some(""), &mut resolver)
        .unwrap();
    let state = resolver
        .try_resolve(&db, "!fork:example.org", &vec![levels.clone(), rules.clone(), name.clone()])
        .unwrap()
        .unwrap();
    // events that others cite are applied after those that cite them
    assert_eq!(state.get(("m.room.power_levels", "")), Some(room.depth_map[2][0].as_str()));
    assert_ne!(room.depth_map[2][0], levels);
    assert_eq!(state.get(("m.room.join_rules", "")), Some(rules.as_str()));
    assert_eq!(state.get(("m.room.name", "")), Some(name.as_str()));
}

#[test]
fn the_state_of_nothing_is_empty() {
    let db = MemStorage::new();
    let mut resolver = StateResolver::new();
    let state = resolver.try_resolve(&db, "!no:example.org", &Vec::new()).unwrap().unwrap();
    assert_eq!(state.get(("m.room.create", "")), None);
    let unknown = resolver.try_resolve(&db, "!no:example.org", &vec!["$x".to_string()]).unwrap();
    assert!(unknown.is_none());
}

#[test]
fn added_events_are_judged_and_stored() {
    let mut db = MemStorage::new();
    let mut resolver = StateResolver::new();
    let (room, alice) = forked_room(&mut db, &mut resolver);
    let mallory = MatrixId::new("mallory", "example.org").unwrap();
    let event = |sender: &MatrixId| NewEvent {
        event_content: Name { name: "mine".to_string() }.into_content(),
        sender: sender.duplicate(),
        state_key: Some(String::new()),
        redacts: None,
        unsigned: None,
    };
    let good = add_event_at(&mut db, &room.room_id, event(&alice), &mut resolver, 5)
        .unwrap()
        .unwrap();
    let bad = add_event_at(&mut db, &room.room_id, event(&mallory), &mut resolver, 6)
        .unwrap()
        .unwrap();
    let good_pdu = db.get_pdu(&room.room_id, &good).unwrap().unwrap();
    let bad_pdu = db.get_pdu(&room.room_id, &bad).unwrap().unwrap();
    assert!(good_pdu.did_pass_auth());
    assert!(!bad_pdu.did_pass_auth());
    assert_eq!(bad_pdu.prev_events(), &vec![good.clone()]);
    assert_eq!(good_pdu.depth() + 1, bad_pdu.depth());
    assert_eq!(good_pdu.origin_server_ts(), 5);
    // what was not allowed does not change the state
    let state = resolver.try_resolve(&db, &room.room_id, &vec![bad]).unwrap().unwrap();
    assert_eq!(state.get(("m.room.name", "")), Some(good.as_str()));
    assert!(matches!(
        add_event_at(&mut db, "!no:example.org", event(&alice), &mut resolver, 0),
        Err(ErrorKind::RoomNotFound)
    ));
    let again = NewEvent {
        event_content: create_content(&alice),
        sender: alice.duplicate(),
        state_key: Some(String::new()),
        redacts: None,
        unsigned: None,
    };
    assert!(add_event_at(&mut db, &room.room_id, again, &mut resolver, 0).unwrap().is_none());
}

#[test]
fn add_event_reads_the_clock() {
    let mut db = MemStorage::new();
    let mut resolver = StateResolver::new();
    let (room, alice) = forked_room(&mut db, &mut resolver);
    let event = NewEvent {
        event_content: Topic { topic: "now".to_string() }.into_content(),
        sender: alice.duplicate(),
        state_key: Some(String::new()),
        redacts: None,
        unsigned: None,
    };
    let id = db.try_add_event(&room.room_id, event, &mut resolver).unwrap().unwrap();
    let pdu = db.get_pdu(&room.room_id, &id).unwrap().unwrap();
    assert!(pdu.origin_server_ts() > 1_500_000_000_000);
    assert_eq!(db.get_sender_power_level(&room.room_id, &id).unwrap(), 100);
}

#[test]
fn the_creator_has_power_without_levels() {
    let mut db = MemStorage::new();
    let mut resolver = StateResolver::new();
    let alice = MatrixId::new("alice", "example.org").unwrap();
    let mut room = TestRoom::create(&mut db, "!bare:example.org", &alice).unwrap();
    let joined = room
        .add(&mut db, 1, &alice, join(), Some(alice.as_str()), &mut resolver)
        .unwrap();
    assert_eq!(db.get_sender_power_level("!bare:example.org", &joined).unwrap(), 100);
}

fn check(
    db: &MemStorage,
    resolver: &mut StateResolver,
    room: &TestRoom,
    sender: &MatrixId,
    content: EventContent,
    state_key: Option<&str>,
    two_parents: bool,
) -> Option<AuthStatus> {
    let (mut prev_events, depth) = db.get_prev_events(&room.room_id).unwrap();
    let state = resolver.try_resolve(db, &room.room_id, &prev_events).unwrap().unwrap();
    if two_parents {
        let first = room.depth_map[0][0].clone();
        prev_events.push(first);
    }
    let event = NewEvent {
        event_content: content,
        sender: sender.duplicate(),
        state_key: state_key.map(String::from),
        redacts: None,
        unsigned: None,
    };
    let auth_events = calc_auth_events(&event, &state);
    let pdu = VersionedPdu::V4(
        UnhashedPdu {
            event_content: event.event_content,
            room_id: room.room_id.clone(),
            sender: event.sender,
            state_key: event.state_key,
            unsigned: None,
            redacts: None,
            origin: "example.org".to_string(),
            origin_server_ts: 0,
            prev_events,
            depth: depth + 1,
            auth_events,
        }
        .finalize(),
    );
    try_auth_check(db, &pdu, &state).unwrap()
}

fn membership(m: Membership) -> EventContent {
    EventContent::Member(Member {
        avatar_url: None,
        displayname: None,
        membership: m,
        is_direct: None,
    })
}

#[test]
fn who_may_do_what() {
    let mut db = MemStorage::new();
    let mut resolver = StateResolver::new();
    let (mut room, alice) = forked_room(&mut db, &mut resolver);
    let bob = MatrixId::new("bob", "example.org").unwrap();
    room.add(
        &mut db,
        3,
        &alice,
        JoinRules { join_rule: JoinRule::Invite },
        Some(""),
        &mut resolver,
    )
    .unwrap();
    let pass = Some(AuthStatus::Pass);
    let fail = Some(AuthStatus::Fail);
    let b = bob.as_str();
    let a = alice.as_str();
    // nobody joins for someone else
    assert_eq!(
        check(&db, &mut resolver, &room, &alice, membership(Membership::Join), Some(b), false),
        fail
    );
    // joining after one event that created nothing cannot be judged
    assert_eq!(
        check(&db, &mut resolver, &room, &bob, membership(Membership::Join), Some(b), false),
        None
    );
    // not invited
    assert_eq!(
        check(&db, &mut resolver, &room, &bob, membership(Membership::Join), Some(b), true),
        fail
    );
    // invitations need membership
    assert_eq!(
        check(&db, &mut resolver, &room, &bob, membership(Membership::Invite), Some(b), false),
        fail
    );
    assert_eq!(
        check(&db, &mut resolver, &room, &alice, membership(Membership::Invite), Some(b), false),
        pass
    );
    room.add(
        &mut db,
        4,
        &alice,
        Member {
            avatar_url: None,
            displayname: None,
            membership: Membership::Invite,
            is_direct: None,
        },
        Some(b),
        &mut resolver,
    )
    .unwrap();
    assert_eq!(
        check(&db, &mut resolver, &room, &bob, membership(Membership::Join), Some(b), true),
        pass
    );
    // declining, and being kicked
    assert_eq!(
        check(&db, &mut resolver, &room, &bob, membership(Membership::Leave), Some(b), false),
        pass
    );
    assert_eq!(
        check(&db, &mut resolver, &room, &alice, membership(Membership::Leave), Some(b), false),
        pass
    );
    assert_eq!(
        check(&db, &mut resolver, &room, &bob, membership(Membership::Leave), Some(a), false),
        fail
    );
    // bans, and knocking
    assert_eq!(
        check(&db, &mut resolver, &room, &alice, membership(Membership::Ban), Some(b), false),
        pass
    );
    assert_eq!(
        check(&db, &mut resolver, &room, &bob, membership(Membership::Ban), Some(a), false),
        fail
    );
    assert_eq!(
        check(&db, &mut resolver, &room, &bob, membership(Membership::Knock), Some(b), false),
        fail
    );
    // those who have not joined send nothing
    let topic = || Topic { topic: "t".to_string() }.into_content();
    assert_eq!(check(&db, &mut resolver, &room, &bob, topic(), Some(""), false), fail);
    assert_eq!(check(&db, &mut resolver, &room, &alice, topic(), Some(""), false), pass);
    // a state key that is the identifier of someone else
    assert_eq!(check(&db, &mut resolver, &room, &alice, topic(), Some(b), false), fail);
    // nobody raises anyone above themselves
    let mut grab = levels_with(&alice, 100);
    grab.users.insert(bob.duplicate(), 101);
    assert_eq!(
        check(&db, &mut resolver, &room, &alice, grab.into_content(), Some(""), false),
        fail
    );
    let mut gift = levels_with(&alice, 100);
    gift.users.insert(bob.duplicate(), 100);
    assert_eq!(
        check(&db, &mut resolver, &room, &alice, gift.into_content(), Some(""), false),
        pass
    );
}

#[test]
fn the_create_event_comes_first() {
    let db = MemStorage::new();
    let alice = MatrixId::new("alice", "example.org").unwrap();
    let make = |room: &str, prev: Vec<String>| {
        VersionedPdu::V4(
            UnhashedPdu {
                event_content: create_content(&alice),
                room_id: room.to_string(),
                sender: alice.duplicate(),
                state_key: Some(String::new()),
                unsigned: None,
                redacts: None,
                origin: "example.org".to_string(),
                origin_server_ts: 0,
                prev_events: prev,
                depth: 0,
                auth_events: Vec::new(),
            }
            .finalize(),
        )
    };
    let empty = kerux::state::State::new("!r:example.org");
    let judge = |pdu: &VersionedPdu| try_auth_check(&db, pdu, &empty).unwrap();
    assert_eq!(judge(&make("!r:example.org", vec![])), Some(AuthStatus::Pass));
    assert_eq!(judge(&make("!r:other.org", vec![])), Some(AuthStatus::Fail));
    assert_eq!(judge(&make("!r:example.org", vec!["$x".to_string()])), Some(AuthStatus::Fail));
    assert_eq!(judge(&make("no colon", vec![])), None);
    assert!(AuthStatus::Pass.is_pass());
    assert!(!AuthStatus::Fail.is_pass());
}
