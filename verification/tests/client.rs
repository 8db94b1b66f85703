use kerux::client::auth::{
    get_supported_login_types, login, login_with, logout, logout_all, register, register_with,
    AccessToken, Identifier, LoginRequest, LoginType, RegisterRequest,
};
use kerux::client::ephemeral::{typing, TypingRequest};
use kerux::client::error::ClientError;
use kerux::client::room::{
    create_room, create_room_with, invite_at, join_by_id_or_alias_at, CreateRoomRequest,
    InviteRequest, Preset, RoomVisibility, StateEvent,
};
use kerux::client::room_events::{
    get_event, get_members, get_state, get_state_event_key, get_state_event_no_key, send_event,
    send_event_at, send_state_event, send_state_event_at, ContentFault, MembersRequest,
};
use kerux::client::room_sync::{
    default_set_presence, resume, sync, sync_with, SetPresence, SyncRequest, SyncResponse, SyncStep,
};
use kerux::client::user::{
    get_3pids, get_avatar_url, get_display_name, get_profile, search_user_directory,
    set_avatar_url, set_display_name, UserDirSearchRequest,
};
use kerux::client::versions;
use kerux::error::{ErrorKind, JsonFault};
use kerux::events::room::{Membership, Name, PowerLevels, Topic};
use kerux::events::{EventContent, EventType};
use kerux::json::JsonValue;
use kerux::server::{start_mem, Config, ServerState, StorageKind};
use kerux::storage::mem::MemStorage;
use kerux::storage::Storage;
use kerux::util::storage::AddEventError;
use kerux::util::MatrixId;

fn config() -> Config {
    Config {
        domain: "example.org".to_string(),
        bind_address: "127.0.0.1:8080".to_string(),
        storage: "mem".to_string(),
    }
}

fn server() -> ServerState<MemStorage> {
    start_mem(config()).unwrap()
}

fn login_request(user: &str, password: Option<&str>, device: Option<&str>) -> LoginRequest {
    LoginRequest {
        login_type: LoginType::Password,
        identifier: Identifier::Username { user: user.to_string() },
        password: password.map(String::from),
        token: None,
        device_id: device.map(String::from),
        initial_device_display_name: "test".to_string(),
    }
}

fn token_for(state: &mut ServerState<MemStorage>, user: &str) -> u128 {
    let response = login(state, login_request(user, Some("password"), None)).unwrap();
    let header = format!("Bearer {}", response.access_token);
    AccessToken::from_request(Some(Some(header.as_str())), None).unwrap().0
}

fn mxid(name: &str) -> MatrixId {
    MatrixId::new(name, "example.org").unwrap()
}

#[test]
fn configuration_names_the_storage() {
    assert_eq!(config().storage_kind(), Some(StorageKind::Mem));
    let mut other = config();
    other.storage = "sled".to_string();
    assert_eq!(other.storage_kind(), Some(StorageKind::Sled));
    other.storage = "tape".to_string();
    assert_eq!(other.storage_kind(), None);
    other.domain = "not a domain".to_string();
    assert!(start_mem(other).is_none());
}

#[test]
fn logging_in() {
    let mut state = server();
    let response =
        login_with(&mut state, login_request("alice", Some("password"), None), 0xab).unwrap();
    assert_eq!(response.user_id.as_str(), "@alice:example.org");
    assert_eq!(response.device_id, "000000AB");
    assert_eq!(response.home_server, "example.org");
    assert_eq!(response.access_token.len(), 36);
    assert_eq!(&response.access_token[14..15], "4");
    let token = AccessToken::from_request(None, Some(&format!("x=y&access_token={}", response.access_token)))
        .unwrap();
    assert_eq!(state.db.try_auth(token.0).unwrap().as_deref(), Some("alice"));
    let named =
        login_with(&mut state, login_request("@bob:example.org", Some("password"), Some("phone")), 1)
            .unwrap();
    assert_eq!(named.user_id.as_str(), "@bob:example.org");
    assert_eq!(named.device_id, "phone");
    assert_ne!(named.access_token, response.access_token);
    let json = named.to_json().into_inner();
    assert_eq!(json["home_server"], "example.org");
    assert_eq!(json["device_id"], "phone");
}

#[test]
fn logging_in_fails() {
    let mut state = server();
    assert!(matches!(
        login(&mut state, login_request("alice", Some("wrong"), None)),
        Err(ErrorKind::Forbidden)
    ));
    assert!(matches!(
        login(&mut state, login_request("nobody", Some("password"), None)),
        Err(ErrorKind::Forbidden)
    ));
    assert!(matches!(
        login(&mut state, login_request("alice", None, None)),
        Err(ErrorKind::Unimplemented)
    ));
    let mut phone = login_request("alice", Some("password"), None);
    phone.identifier =
        Identifier::Phone { country: "GB".to_string(), phone: "123".to_string() };
    assert!(matches!(login(&mut state, phone), Err(ErrorKind::Unimplemented)));
}

#[test]
fn tokens_in_requests() {
    let none = AccessToken::from_request(None, None);
    assert!(matches!(none, Err(ErrorKind::MissingToken)));
    let odd = AccessToken::from_request(Some(None), Some("access_token=x"));
    assert!(matches!(odd, Err(ErrorKind::MissingToken)));
    let basic = AccessToken::from_request(Some(Some("Basic abc")), None);
    assert!(matches!(basic, Err(ErrorKind::MissingToken)));
    let junk = AccessToken::from_request(Some(Some("Bearer abc")), None);
    assert!(matches!(junk, Err(ErrorKind::UnknownToken)));
    let query = AccessToken::from_request(None, Some("a=b"));
    assert!(matches!(query, Err(ErrorKind::MissingToken)));
    let uuid = "00000000-0000-0000-0000-0000000000ff";
    let good = AccessToken::from_request(Some(Some(&format!("Bearer {}", uuid))), None).unwrap();
    assert_eq!(good.0, 255);
    let twice =
        AccessToken::from_request(Some(Some(&format!("Bearer Bearer {}", uuid))), None).unwrap();
    assert_eq!(twice.0, 255);
}

#[test]
fn logging_out() {
    let mut state = server();
    let first = token_for(&mut state, "alice");
    let second = token_for(&mut state, "alice");
    let third = token_for(&mut state, "alice");
    let other = token_for(&mut state, "bob");
    logout(&mut state, AccessToken(first)).unwrap();
    assert!(state.db.try_auth(first).unwrap().is_none());
    assert!(state.db.try_auth(second).unwrap().is_some());
    logout_all(&mut state, AccessToken(second)).unwrap();
    assert!(state.db.try_auth(second).unwrap().is_none());
    assert!(state.db.try_auth(third).unwrap().is_none());
    assert!(state.db.try_auth(other).unwrap().is_some());
    assert!(matches!(state.authenticate(first), Err(ErrorKind::UnknownToken)));
}

#[test]
fn ways_to_log_in() {
    let json = get_supported_login_types().into_inner();
    assert_eq!(json.to_string(), "{\"flows\":[{\"type\":\"m.login.password\"}]}");
    assert_eq!(versions().into_inner().to_string(), "{\"versions\":[\"r0.6.0\"]}");
}

fn register_request(name: &str, inhibit: bool) -> RegisterRequest {
    RegisterRequest {
        auth: JsonValue::null(),
        bind_email: false,
        bind_msisdn: false,
        username: name.to_string(),
        password: "secret".to_string(),
        device_id: None,
        initial_device_display_name: "test".to_string(),
        inhibit_login: inhibit,
    }
}

#[test]
fn registering() {
    let mut state = server();
    let answer = register_with(&mut state, register_request("dave", false), "kind=user", 1)
        .unwrap()
        .into_inner();
    assert_eq!(answer["user_id"], "@dave:example.org");
    assert_eq!(answer["device_id"], "00000001");
    let header = format!("Bearer {}", answer["access_token"].as_str().unwrap());
    let token = AccessToken::from_request(Some(Some(&header)), None).unwrap();
    assert_eq!(state.authenticate(token.0).unwrap(), "dave");
    assert!(login(&mut state, login_request("dave", Some("secret"), None)).is_ok());
    assert!(login(&mut state, login_request("@dave:example.org", Some("secret"), None)).is_ok());
    let quiet = register(&mut state, register_request("erin", true), "a=b&kind=user").unwrap();
    assert_eq!(quiet.into_inner().to_string(), "{\"user_id\":\"erin\"}");
}

#[test]
fn registering_fails() {
    let mut state = server();
    let guest = register(&mut state, register_request("x", true), "kind=guest");
    assert!(matches!(guest, Err(ErrorKind::Unimplemented)));
    match register(&mut state, register_request("x", true), "kind=bot") {
        Err(ErrorKind::InvalidParam(p)) => assert_eq!(p, "kind=bot"),
        _ => panic!("no error"),
    }
    match register(&mut state, register_request("x", true), "") {
        Err(ErrorKind::MissingParam(p)) => assert_eq!(p, "kind"),
        _ => panic!("no error"),
    }
    match register(&mut state, register_request("Not Valid", true), "kind=user") {
        Err(ErrorKind::BadJson(words)) => {
            assert_eq!(words, "A Matrix ID can only have lowercase letters, numbers, and `-_.=/`.")
        }
        _ => panic!("no error"),
    }
    let taken = register(&mut state, register_request("alice", true), "kind=user");
    assert!(matches!(taken, Err(ErrorKind::UsernameTaken)));
}

#[test]
fn profiles() {
    let mut state = server();
    let token = token_for(&mut state, "alice");
    let alice = mxid("alice");
    assert!(matches!(get_avatar_url(&state, &alice), Err(ErrorKind::NotFound)));
    assert!(matches!(get_display_name(&state, &alice), Err(ErrorKind::NotFound)));
    assert_eq!(get_profile(&state, &alice).unwrap().into_inner().to_string(), "{}");
    let mut body = JsonValue::object();
    body.insert("avatar_url", JsonValue::text("mxc://a"));
    body.insert("displayname", JsonValue::integer(3));
    set_avatar_url(&mut state, AccessToken(token), &alice, &body).unwrap();
    assert_eq!(
        get_avatar_url(&state, &alice).unwrap().into_inner().to_string(),
        "{\"avatar_url\":\"mxc://a\"}"
    );
    match set_display_name(&mut state, AccessToken(token), &alice, &body) {
        Err(ErrorKind::BadJson(words)) => assert_eq!(words, "displayname should be a string"),
        _ => panic!("no error"),
    }
    match set_display_name(&mut state, AccessToken(token), &alice, &JsonValue::object()) {
        Err(ErrorKind::BadJson(words)) => assert_eq!(words, "no displayname field"),
        _ => panic!("no error"),
    }
    body.insert("displayname", JsonValue::text("Alice"));
    set_display_name(&mut state, AccessToken(token), &alice, &body).unwrap();
    assert_eq!(
        get_profile(&state, &alice).unwrap().into_inner().to_string(),
        "{\"avatar_url\":\"mxc://a\",\"displayname\":\"Alice\"}"
    );
    assert!(matches!(
        set_display_name(&mut state, AccessToken(token), &mxid("bob"), &body),
        Err(ErrorKind::Forbidden)
    ));
    assert!(matches!(
        set_display_name(&mut state, AccessToken(0), &alice, &body),
        Err(ErrorKind::UnknownToken)
    ));
    let away = MatrixId::new("alice", "elsewhere.org").unwrap();
    assert!(matches!(get_avatar_url(&state, &away), Err(ErrorKind::Unimplemented)));
    assert!(matches!(get_profile(&state, &away), Err(ErrorKind::Unknown(_))));
    assert!(matches!(
        set_avatar_url(&mut state, AccessToken(token), &away, &body),
        Err(ErrorKind::Unknown(_))
    ));
}

#[test]
fn searching_users() {
    let state = server();
    let find = |term: &str| {
        search_user_directory(
            &state,
            UserDirSearchRequest { search_term: term.to_string(), limit: None },
        )
    };
    let found = find("bob").unwrap();
    assert_eq!(found.results.len(), 1);
    assert_eq!(found.results[0].user_id.as_str(), "@bob:example.org");
    assert!(find("nobody").unwrap().results.is_empty());
    match find("@") {
        Err(ErrorKind::Unknown(words)) => assert!(words.starts_with("A Matrix ID can only have")),
        _ => panic!("no error"),
    }
    assert!(get_3pids(&state, AccessToken(0)).unwrap().threepids.is_empty());
}

fn plain_room() -> CreateRoomRequest {
    CreateRoomRequest {
        visibility: RoomVisibility::Private,
        room_alias_name: None,
        name: None,
        topic: None,
        invite: None,
        invite_3pid: None,
        room_version: None,
        creation_content: None,
        initial_state: None,
        preset: None,
        is_direct: None,
        power_level_content_override: None,
    }
}

fn types(state: &ServerState<MemStorage>, token: u128, room: &str) -> Vec<String> {
    get_state(state, AccessToken(token), room)
        .unwrap()
        .iter()
        .map(|e| e.event_content.get_type().to_string())
        .collect()
}

#[test]
fn creating_a_room() {
    let mut state = server();
    let token = token_for(&mut state, "alice");
    let mut req = plain_room();
    req.name = Some("The room".to_string());
    req.topic = Some("Things".to_string());
    req.invite = Some(vec!["@bob:example.org".to_string()]);
    req.initial_state = Some(vec![StateEvent {
        state_key: "k".to_string(),
        content: Ok(EventContent::Unknown {
            ty: "org.example.thing".to_string(),
            content: JsonValue::object(),
        }),
    }]);
    let answer = create_room_with(&mut state, AccessToken(token), req, 0xff, 12).unwrap().unwrap();
    let room = "!00000000000000FF:example.org";
    assert_eq!(answer.into_inner()["room_id"], room);
    assert_eq!(
        types(&state, token, room),
        vec![
            "m.room.create",
            "m.room.member",
            "m.room.power_levels",
            "m.room.join_rules",
            "m.room.history_visibility",
            "m.room.guest_access",
            "org.example.thing",
            "m.room.name",
            "m.room.topic",
            "m.room.member",
        ]
    );
    let rules = get_state_event_no_key(&state, AccessToken(token), room, "m.room.join_rules")
        .unwrap()
        .to_json()
        .into_inner();
    assert_eq!(rules["content"]["join_rule"], "invite");
    assert_eq!(rules["origin_server_ts"], 12);
    let guests = get_state_event_no_key(&state, AccessToken(token), room, "m.room.guest_access")
        .unwrap()
        .to_json()
        .into_inner();
    assert_eq!(guests["content"]["guest_access"], "can_join");
    let invited =
        get_state_event_key(&state, AccessToken(token), room, "m.room.member", "@bob:example.org")
            .unwrap()
            .to_json()
            .into_inner();
    assert_eq!(invited["content"]["membership"], "invite");
    assert_eq!(invited["content"]["is_direct"], false);
    assert!(matches!(
        get_state_event_no_key(&state, AccessToken(token), room, "m.room.redaction"),
        Err(ErrorKind::NotFound)
    ));
    // each event follows the one before it, and those from the fourth on cite the levels
    let (pdus, _) = state
        .db
        .query_pdus(&kerux::storage::EventQuery {
            query_type: kerux::storage::QueryType::Timeline { from: 0, to: None },
            room_id: room,
            senders: &[],
            not_senders: &[],
            types: &[],
            not_types: &[],
            contains_json: None,
        })
        .unwrap();
    assert_eq!(pdus.len(), 10);
    for (i, pdu) in pdus.iter().enumerate() {
        assert_eq!(pdu.depth(), i as i64);
        assert!(pdu.did_pass_auth());
        if i == 0 {
            assert!(pdu.prev_events().is_empty());
        } else {
            assert_eq!(pdu.prev_events(), &vec![pdus[i - 1].event_id().to_string()]);
        }
        if i < 3 {
            assert!(pdu.auth_events().is_empty());
        } else {
            assert_eq!(pdu.auth_events(), &vec![pdus[2].event_id().to_string()]);
        }
    }
}

#[test]
fn creating_a_public_room() {
    let mut state = server();
    let token = token_for(&mut state, "alice");
    let mut req = plain_room();
    req.visibility = RoomVisibility::Public;
    req.power_level_content_override = Some(PowerLevels::default());
    create_room_with(&mut state, AccessToken(token), req, 1, 0).unwrap().unwrap();
    let room = "!0000000000000001:example.org";
    let rules = get_state_event_no_key(&state, AccessToken(token), room, "m.room.join_rules")
        .unwrap()
        .to_json()
        .into_inner();
    assert_eq!(rules["content"]["join_rule"], "public");
    let mut req = plain_room();
    req.visibility = RoomVisibility::Public;
    req.preset = Some(Preset::TrustedPrivateChat);
    create_room_with(&mut state, AccessToken(token), req, 2, 0).unwrap().unwrap();
    let room = "!0000000000000002:example.org";
    let rules = get_state_event_no_key(&state, AccessToken(token), room, "m.room.join_rules")
        .unwrap()
        .to_json()
        .into_inner();
    assert_eq!(rules["content"]["join_rule"], "invite");
}

#[test]
fn creating_a_room_fails() {
    let mut state = server();
    let token = token_for(&mut state, "alice");
    assert!(matches!(
        create_room(&mut state, AccessToken(0), plain_room()),
        Err(ErrorKind::UnknownToken)
    ));
    let mut old = plain_room();
    old.room_version = Some("1".to_string());
    assert!(matches!(
        create_room(&mut state, AccessToken(token), old),
        Err(ErrorKind::UnsupportedRoomVersion)
    ));
    let mut faulty = plain_room();
    faulty.initial_state = Some(vec![StateEvent {
        state_key: String::new(),
        content: Err(ContentFault { fault: JsonFault::Data, words: "no name".to_string() }),
    }]);
    match create_room(&mut state, AccessToken(token), faulty) {
        Err(ErrorKind::BadJson(words)) => assert_eq!(words, "no name"),
        _ => panic!("no error"),
    }
    assert!(state.db.get_rooms().unwrap().is_empty());
    let mut fourth = plain_room();
    fourth.room_version = Some("4".to_string());
    let answer = create_room(&mut state, AccessToken(token), fourth).unwrap().unwrap().into_inner();
    let id = answer["room_id"].as_str().unwrap();
    assert_eq!(id.len(), "!0000000000000002:example.org".len());
    assert!(id.starts_with('!') && id.ends_with(":example.org"));
}

fn room_of(state: &mut ServerState<MemStorage>, token: u128) -> String {
    let mut req = plain_room();
    let mut levels = PowerLevels::default();
    levels.users.insert(mxid("alice"), 100);
    req.power_level_content_override = Some(levels);
    let answer = create_room_with(state, AccessToken(token), req, 7, 0).unwrap().unwrap();
    answer.into_inner()["room_id"].as_str().unwrap().to_string()
}

fn text(body: &str) -> Result<EventContent, ContentFault> {
    let mut content = JsonValue::object();
    content.insert("body", JsonValue::text(body));
    Ok(EventContent::Unknown { ty: "m.room.message".to_string(), content })
}

#[test]
fn sending_events() {
    let mut state = server();
    let token = token_for(&mut state, "alice");
    let room = room_of(&mut state, token);
    state.db.set_typing(&room, &mxid("alice"), true, 1000, 0).unwrap();
    let sent = send_event_at(&mut state, AccessToken(token), &room, "t1".to_string(), text("hi"), 3)
        .unwrap()
        .unwrap();
    let event = get_event(&state, AccessToken(token), &room, &sent.event_id).unwrap();
    let json = event.to_json().into_inner();
    assert_eq!(json["content"]["body"], "hi");
    assert_eq!(json["type"], "m.room.message");
    assert_eq!(json["sender"], "@alice:example.org");
    assert_eq!(json["unsigned"]["transaction_id"], "t1");
    let typing = state.db.get_ephemeral(&room, "m.typing", 1).unwrap().unwrap().into_inner();
    assert_eq!(typing["user_ids"].as_array().unwrap().len(), 0);
    assert!(state.db.get_pdu(&room, &sent.event_id).unwrap().unwrap().did_pass_auth());
    assert!(matches!(
        send_event(&mut state, AccessToken(token), &room, "t1".to_string(), text("again")),
        Err(ErrorKind::TxnIdExists)
    ));
    let bad = Err(ContentFault { fault: JsonFault::Other, words: "eof".to_string() });
    match send_event(&mut state, AccessToken(token), &room, "t2".to_string(), bad) {
        Err(ErrorKind::NotJson(words)) => assert_eq!(words, "eof"),
        _ => panic!("no error"),
    }
    // the transaction counts as started all the same
    assert!(matches!(
        send_event(&mut state, AccessToken(token), &room, "t2".to_string(), text("x")),
        Err(ErrorKind::TxnIdExists)
    ));
    assert!(matches!(
        send_event(&mut state, AccessToken(token), "!no:example.org", "t3".to_string(), text("x")),
        Err(ErrorKind::RoomNotFound)
    ));
    assert!(matches!(
        send_event(&mut state, AccessToken(0), &room, "t4".to_string(), text("x")),
        Err(ErrorKind::UnknownToken)
    ));
}

#[test]
fn sending_state_events() {
    let mut state = server();
    let token = token_for(&mut state, "alice");
    let room = room_of(&mut state, token);
    let content = Ok(Topic { topic: "new".to_string() }.into_content());
    let sent = send_state_event_at(&mut state, AccessToken(token), &room, String::new(), content, 9)
        .unwrap()
        .unwrap();
    assert!(sent.event_id.starts_with('$'));
    let topic = get_state_event_no_key(&state, AccessToken(token), &room, "m.room.topic").unwrap();
    assert_eq!(topic.to_json().into_inner()["content"]["topic"], "new");
    let content = Ok(Name { name: "n".to_string() }.into_content());
    assert!(matches!(
        send_state_event(&mut state, AccessToken(token), "!no:example.org", String::new(), content),
        Err(ErrorKind::RoomNotFound)
    ));
    let fault = Err(ContentFault { fault: JsonFault::Data, words: "w".to_string() });
    assert!(matches!(
        send_state_event(&mut state, AccessToken(token), &room, String::new(), fault),
        Err(ErrorKind::BadJson(_))
    ));
}

#[test]
fn only_members_read() {
    let mut state = server();
    let token = token_for(&mut state, "alice");
    let bob = token_for(&mut state, "bob");
    let room = room_of(&mut state, token);
    assert!(matches!(get_state(&state, AccessToken(bob), &room), Err(ErrorKind::Forbidden)));
    assert!(matches!(
        get_event(&state, AccessToken(bob), &room, "$x"),
        Err(ErrorKind::Forbidden)
    ));
    assert!(matches!(
        get_event(&state, AccessToken(token), &room, "$x"),
        Err(ErrorKind::NotFound)
    ));
    assert!(matches!(
        get_event(&state, AccessToken(token), "!no:example.org", "$x"),
        Err(ErrorKind::RoomNotFound)
    ));
    let req = InviteRequest { user_id: mxid("bob") };
    assert!(invite_at(&mut state, AccessToken(token), &room, req, 1).unwrap());
    assert!(matches!(get_state(&state, AccessToken(bob), &room), Err(ErrorKind::Unimplemented)));
}

#[test]
fn members_are_filtered() {
    let mut state = server();
    let token = token_for(&mut state, "alice");
    let room = room_of(&mut state, token);
    let req = InviteRequest { user_id: mxid("bob") };
    assert!(invite_at(&mut state, AccessToken(token), &room, req, 1).unwrap());
    let ask = |membership, not_membership| {
        let req = MembersRequest { at: String::new(), membership, not_membership };
        get_members(&state, AccessToken(token), &room, req)
            .unwrap()
            .chunk
            .iter()
            .map(|e| e.state_key.clone().unwrap())
            .collect::<Vec<_>>()
    };
    assert_eq!(ask(None, None), vec!["@alice:example.org", "@bob:example.org"]);
    assert_eq!(ask(Some(Membership::Join), None), vec!["@alice:example.org"]);
    assert_eq!(ask(None, Some(Membership::Join)), vec!["@bob:example.org"]);
    assert!(ask(Some(Membership::Join), Some(Membership::Join)).is_empty());
}

#[test]
fn joining_after_an_invitation_cannot_be_judged_in_a_line() {
    let mut state = server();
    let token = token_for(&mut state, "alice");
    let bob = token_for(&mut state, "bob");
    let room = room_of(&mut state, token);
    let before = state.db.get_prev_events(&room).unwrap();
    assert!(join_by_id_or_alias_at(&mut state, AccessToken(bob), &room, 1).unwrap().is_none());
    assert_eq!(state.db.get_prev_events(&room).unwrap(), before);
    assert!(matches!(
        join_by_id_or_alias_at(&mut state, AccessToken(bob), "!no:example.org", 1),
        Err(ErrorKind::RoomNotFound)
    ));
}

#[test]
fn typing_is_for_oneself() {
    let mut state = server();
    let token = token_for(&mut state, "alice");
    let room = room_of(&mut state, token);
    let req = || TypingRequest { typing: true, timeout: 50 };
    typing(&mut state, AccessToken(token), &room, &mxid("alice"), req(), 10).unwrap();
    let shown = state.db.get_ephemeral(&room, "m.typing", 59).unwrap().unwrap().into_inner();
    assert_eq!(shown["user_ids"][0], "@alice:example.org");
    let over = state.db.get_ephemeral(&room, "m.typing", 60).unwrap().unwrap().into_inner();
    assert_eq!(over["user_ids"].as_array().unwrap().len(), 0);
    assert!(matches!(
        typing(&mut state, AccessToken(token), &room, &mxid("bob"), req(), 10),
        Err(ErrorKind::Forbidden)
    ));
    assert!(matches!(
        typing(&mut state, AccessToken(0), &room, &mxid("alice"), req(), 10),
        Err(ErrorKind::Forbidden)
    ));
    assert!(matches!(
        typing(&mut state, AccessToken(token), "!no:example.org", &mxid("alice"), req(), 10),
        Err(ErrorKind::RoomNotFound)
    ));
}

fn sync_request(since: Option<&str>, full_state: bool) -> SyncRequest {
    SyncRequest {
        filter: None,
        since: since.map(String::from),
        full_state,
        set_presence: default_set_presence(),
        timeout: 250,
    }
}

fn done(step: SyncStep) -> SyncResponse {
    match step {
        SyncStep::Done(response) => response,
        SyncStep::Wait(_) => panic!("has to wait"),
    }
}

#[test]
fn syncing() {
    let mut state = server();
    assert_eq!(default_set_presence(), SetPresence::Online);
    let token = token_for(&mut state, "alice");
    let nothing = done(sync_with(&mut state, AccessToken(token), sync_request(None, false), 0x1f, 0).unwrap());
    assert_eq!(nothing.next_batch, "1f");
    assert!(nothing.rooms.is_none());
    let room = room_of(&mut state, token);
    let first = done(sync(&mut state, AccessToken(token), sync_request(None, true), 0).unwrap());
    let rooms = first.rooms.as_ref().unwrap();
    assert_eq!(rooms.join.len(), 1);
    let joined = rooms.join.get(&room).unwrap();
    assert_eq!(joined.timeline.events.len(), 6);
    assert_eq!(joined.state.events.len(), 6);
    assert_eq!(joined.timeline.prev_batch, "empty");
    assert!(!joined.timeline.limited);
    assert_eq!(joined.summary.joined_member_count, 1);
    assert_eq!(joined.summary.invited_member_count, 0);
    assert_eq!(joined.ephemeral.events.len(), 1);
    // nothing new: the answer waits
    let step = sync_with(
        &mut state,
        AccessToken(token),
        sync_request(Some(&first.next_batch), false),
        2,
        0,
    )
    .unwrap();
    let waiting = match step {
        SyncStep::Wait(waiting) => waiting,
        SyncStep::Done(_) => panic!("does not wait"),
    };
    assert_eq!(waiting.timeout, 250);
    assert_eq!(waiting.ends.get(&room), Some(&5));
    let sent = send_event_at(&mut state, AccessToken(token), &room, "t".to_string(), text("hi"), 3)
        .unwrap()
        .unwrap();
    assert!(!sent.event_id.is_empty());
    let resumed = resume(&mut state, waiting, Some(room.clone()), 0).unwrap();
    let told = resumed.rooms.as_ref().unwrap().join.get(&room).unwrap();
    // from the last event that was known on
    assert_eq!(told.timeline.events.len(), 2);
    assert_eq!(state.db.get_batch("2").unwrap().unwrap().rooms.get(&room), Some(&7));
    let again = sync_with(&mut state, AccessToken(token), sync_request(Some("2"), false), 3, 0).unwrap();
    assert!(matches!(again, SyncStep::Wait(_)));
    let since_first = done(
        sync_with(&mut state, AccessToken(token), sync_request(Some(&first.next_batch), false), 4, 0)
            .unwrap(),
    );
    assert_eq!(since_first.rooms.unwrap().join.get(&room).unwrap().timeline.events.len(), 1);
    assert!(matches!(
        sync(&mut state, AccessToken(0), sync_request(None, false), 0),
        Err(ErrorKind::UnknownToken)
    ));
}

#[test]
fn waiting_ends_with_the_time() {
    let mut state = server();
    let token = token_for(&mut state, "alice");
    let room = room_of(&mut state, token);
    let first = done(sync(&mut state, AccessToken(token), sync_request(None, false), 0).unwrap());
    let step =
        sync_with(&mut state, AccessToken(token), sync_request(Some(&first.next_batch), false), 9, 0)
            .unwrap();
    match step {
        SyncStep::Wait(waiting) => {
            let response = resume(&mut state, waiting, None, 0).unwrap();
            assert_eq!(response.next_batch, "9");
            let batch = state.db.get_batch("9").unwrap().unwrap();
            assert_eq!(batch.rooms.get(&room), Some(&6));
        }
        SyncStep::Done(_) => panic!("does not wait"),
    }
}

#[test]
fn invitations_are_told_once() {
    let mut state = server();
    let token = token_for(&mut state, "alice");
    let bob = token_for(&mut state, "bob");
    let room = room_of(&mut state, token);
    let req = InviteRequest { user_id: mxid("bob") };
    assert!(invite_at(&mut state, AccessToken(token), &room, req, 1).unwrap());
    let first = done(sync(&mut state, AccessToken(bob), sync_request(None, false), 0).unwrap());
    let rooms = first.rooms.unwrap();
    assert_eq!(rooms.join.len(), 0);
    let invited = rooms.invite.get(&room).unwrap();
    assert_eq!(invited.invite_state.events.len(), 7);
    let again = done(
        sync(&mut state, AccessToken(bob), sync_request(Some(&first.next_batch), false), 0).unwrap(),
    );
    assert!(again.rooms.is_none());
}

#[test]
fn summaries_of_joined_rooms() {
    let mut state = server();
    let token = token_for(&mut state, "alice");
    let room = room_of(&mut state, token);
    let response = kerux::client::sync::sync(&state, AccessToken(token)).unwrap();
    assert_eq!(response.next_batch, "");
    assert_eq!(response.join.get(&room).unwrap().joined_member_count, 1);
    let bob = token_for(&mut state, "bob");
    assert_eq!(kerux::client::sync::sync(&state, AccessToken(bob)).unwrap().join.len(), 0);
}

#[test]
fn rooms_made_step_by_step() {
    let mut state = server();
    let token = token_for(&mut state, "alice");
    let mut req = plain_room();
    req.name = Some("n".to_string());
    let mut levels = PowerLevels::default();
    levels.users.insert(mxid("alice"), 100);
    req.power_level_content_override = Some(levels);
    req.invite = Some(vec!["@bob:example.org".to_string()]);
    let answer =
        kerux::client_api::room::create_room_with(&mut state, AccessToken(token), req, 5, 1)
            .unwrap()
            .unwrap();
    let room = answer.into_inner()["room_id"].as_str().unwrap().to_string();
    assert_eq!(room, "!0000000000000005:example.org");
    assert_eq!(
        types(&state, token, &room),
        vec![
            "m.room.create",
            "m.room.member",
            "m.room.power_levels",
            "m.room.join_rules",
            "m.room.history_visibility",
            "m.room.guest_access",
            "m.room.name",
            "m.room.member",
        ]
    );
    let (ids, depth) = state.db.get_prev_events(&room).unwrap();
    assert_eq!(depth, 7);
    let last = state.db.get_pdu(&room, &ids[0]).unwrap().unwrap();
    assert!(last.did_pass_auth());
    let carol = InviteRequest { user_id: mxid("carol") };
    let invited =
        kerux::client_api::room::invite(&mut state, AccessToken(token), &room, carol).unwrap();
    assert_eq!(invited.unwrap().into_inner().to_string(), "{}");
    let req = kerux::client_api::ephemeral::TypingRequest { typing: true, timeout: 5 };
    let typed = kerux::client_api::ephemeral::typing(
        &mut state,
        AccessToken(token),
        &room,
        &mxid("alice"),
        req,
        0,
    )
    .unwrap();
    assert_eq!(typed.into_inner().to_string(), "{}");
    let mut faulty = plain_room();
    faulty.initial_state = Some(vec![StateEvent {
        state_key: String::new(),
        content: Err(ContentFault { fault: JsonFault::Data, words: "no name".to_string() }),
    }]);
    assert!(matches!(
        kerux::client_api::room::create_room_with(&mut state, AccessToken(token), faulty, 6, 1),
        Err(ErrorKind::BadJson(_))
    ));
    // what came before the fault was stored
    let made = "!0000000000000006:example.org";
    assert_eq!(types(&state, token, made).len(), 6);
}

#[test]
fn answers_to_failed_requests() {
    let all = vec![
        (ErrorKind::Forbidden, 403, "M_FORBIDDEN"),
        (ErrorKind::UnknownToken, 403, "M_UNKNOWN_TOKEN"),
        (ErrorKind::MissingToken, 403, "M_MISSING_TOKEN"),
        (ErrorKind::BadJson("x".to_string()), 400, "M_BAD_JSON"),
        (ErrorKind::NotJson("x".to_string()), 400, "M_NOT_JSON"),
        (ErrorKind::NotFound, 404, "M_NOT_FOUND"),
        (ErrorKind::UserNotFound, 404, "M_NOT_FOUND"),
        (ErrorKind::RoomNotFound, 404, "M_NOT_FOUND"),
        (ErrorKind::UsernameTaken, 403, "M_USER_IN_USE"),
        (ErrorKind::LimitExceeded, 429, "M_LIMIT_EXCEEDED"),
        (ErrorKind::MissingParam("x".to_string()), 400, "M_MISSING_PARAM"),
        (ErrorKind::InvalidParam("x".to_string()), 400, "M_INVALID_PARAM"),
        (ErrorKind::UnsupportedRoomVersion, 400, "M_UNSUPPORTED_ROOM_VERSION"),
        (ErrorKind::TxnIdExists, 400, "M_UNKNOWN"),
        (ErrorKind::UrlNotUtf8("x".to_string()), 400, "M_UNKNOWN"),
        (ErrorKind::SledError("x".to_string()), 500, "M_UNKNOWN"),
        (ErrorKind::BincodeError("x".to_string()), 500, "M_UNKNOWN"),
        (ErrorKind::PasswordError(argon2::Error::SaltTooShort), 400, "M_UNKNOWN"),
        (ErrorKind::Unimplemented, 501, "M_UNKNOWN"),
        (ErrorKind::AddEventError(AddEventError::UserBanned), 500, "M_UNKNOWN"),
        (ErrorKind::Unknown("x".to_string()), 400, "M_UNKNOWN"),
    ];
    for (kind, status, errcode) in all.iter() {
        let response = kind.error_response("here");
        assert_eq!(response.status, *status);
        assert_eq!(response.errcode, *errcode);
        assert_eq!(response.error, format!("{}\nhere", kind.message()));
    }
    assert_eq!(
        ErrorKind::SledError("disk".to_string()).message(),
        "A database error occurred: disk."
    );
    assert!(ErrorKind::PasswordError(argon2::Error::SaltTooShort)
        .message()
        .starts_with("A password error occurred: "));
    assert!(ErrorKind::PasswordError(argon2::Error::SaltTooShort).message().len() > 27);
    let json = ErrorKind::NotFound.error_response("").to_json().into_inner();
    assert_eq!(
        json.to_string(),
        "{\"errcode\":\"M_NOT_FOUND\",\"error\":\"No resource was found for this request.\\n\"}"
    );
}

#[test]
fn answers_of_the_client_api() {
    let limited = ClientError::LimitExceeded.error_response();
    assert_eq!(limited.status, 429);
    assert_eq!(
        limited.error,
        "Too many requests have been sent in a short period of time. Wait a while then try again."
    );
    let utf8 = ClientError::UrlNotUtf8("x".to_string()).error_response();
    assert_eq!((utf8.status, utf8.error.as_str()), (400, "Malformed UTF-8 in URL: x"));
    let io = ClientError::IoError("gone".to_string()).error_response();
    assert_eq!((io.status, io.errcode.as_str(), io.error.as_str()), (500, "M_UNKNOWN", "gone"));
    let pw = ClientError::PasswordError(argon2::Error::SaltTooShort).error_response();
    assert_eq!(pw.status, 400);
    assert!(!pw.error.is_empty());
    let event = ClientError::AddEventError(AddEventError::InvalidEvent("e".to_string()));
    assert_eq!(event.error_response().error, "The event to be added was invalid.");
    assert!(matches!(
        ClientError::from_payload(Some(JsonFault::Other), "x".to_string()),
        ClientError::NotJson(_)
    ));
    assert!(matches!(ClientError::from_payload(None, "x".to_string()), ClientError::Unknown(_)));
    assert!(matches!(ClientError::from_utf8_error("x".to_string()), ClientError::NotJson(_)));
    assert!(matches!(
        ErrorKind::from_payload(Some(JsonFault::Data), "x".to_string()),
        ErrorKind::BadJson(_)
    ));
}
