//! The authorisation rules.
use crate::dict::{distinct_keys, has_key, Dict, Key};
use crate::error::ErrorKind;
use crate::events::room::{
    no_event_levels, Create, JoinRule, JoinRules, Member, Membership, PowerLevels, PowerLevelsView,
};
use crate::events::room_version::v4::PduView;
use crate::events::room_version::VersionedPdu;
use crate::events::{ContentKind, ContentView, EventContent};
use crate::state::{state_content, State, StateView};
use crate::storage::{db_failed, find_pdu, is_state_of, RoomView, Storage};
use crate::text::{chars_of, first_split, same, split_once, texts};
use crate::util::mxid::{domain_of, mxid_verdict, MatrixId};
use vstd::prelude::*;

verus! {

/// Whether an event is allowed.
#[derive(Debug, PartialEq, Eq, Structural, Clone, Copy)]
pub enum AuthStatus {
    Pass,
    Fail,
}

impl AuthStatus {
    pub fn is_pass(&self) -> (r: bool)
        ensures
            r == (*self == AuthStatus::Pass),
    {
        *self == AuthStatus::Pass
    }
}

/// Pass where a condition holds.
pub open spec fn pass_if(condition: bool) -> AuthStatus {
    if condition {
        AuthStatus::Pass
    } else {
        AuthStatus::Fail
    }
}

/// A create event comes first, and its sender lives on the server that the room identifier names.
/// Nothing is decided where the room identifier names no server.
pub open spec fn create_rule(pdu: PduView) -> Option<AuthStatus> {
    if pdu.prev_events.len() > 0 {
        Some(AuthStatus::Fail)
    } else {
        match first_split(pdu.room_id, ':') {
            Some((_, server)) => Some(pass_if(domain_of(pdu.sender) == server)),
            None => None,
        }
    }
}

/// Whether each event that is cited as authority is there and is a state event.
pub open spec fn cites_state(
    rooms: Map<Seq<char>, RoomView>,
    room_id: Seq<char>,
    ids: Seq<Seq<char>>,
) -> bool {
    forall|i: int|
        0 <= i < ids.len() ==> find_pdu(rooms, room_id, #[trigger] ids[i]) is Some && find_pdu(
            rooms,
            room_id,
            ids[i],
        )->0.pdu.state_key is Some
}

/// Whether the create event is cited as authority.
pub open spec fn cites_create(
    rooms: Map<Seq<char>, RoomView>,
    room_id: Seq<char>,
    ids: Seq<Seq<char>>,
) -> bool {
    exists|i: int|
        0 <= i < ids.len() && is_state_of(
            find_pdu(rooms, room_id, #[trigger] ids[i])->0,
            "m.room.create"@,
            ""@,
        )
}

/// How a user stands to the room in a state.
pub open spec fn membership_in(
    rooms: Map<Seq<char>, RoomView>,
    state: StateView,
    user: Seq<char>,
) -> Option<Option<Membership>> {
    match state_content(rooms, state, ContentKind::Member, user) {
        None => None,
        Some(None) => Some(None),
        Some(Some(content)) => Some(Some(content->Member_0.membership)),
    }
}

/// A user joins for themselves. The first to join is the creator. Nobody who is banned joins, and
/// otherwise a user joins who is invited to, or already in, a room that takes invitations or is
/// public.
pub open spec fn join_rule(
    rooms: Map<Seq<char>, RoomView>,
    pdu: PduView,
    state: StateView,
) -> Option<AuthStatus> {
    if pdu.state_key != Some(pdu.sender) {
        Some(AuthStatus::Fail)
    } else if pdu.prev_events.len() == 1 {
        match find_pdu(rooms, pdu.room_id, pdu.prev_events[0]) {
            Some(prev) => match prev.pdu.content {
                ContentView::Create(create) => Some(pass_if(pdu.sender == create.creator)),
                _ => None,
            },
            None => None,
        }
    } else {
        match membership_in(rooms, state, pdu.sender) {
            None => None,
            Some(membership) => if membership == Some(Membership::Ban) {
                Some(AuthStatus::Fail)
            } else {
                match state_content(rooms, state, ContentKind::JoinRules, ""@) {
                    None => None,
                    Some(rules) => Some(
                        pass_if(
                            rules is Some && (rules->0->JoinRules_0.join_rule == JoinRule::Invite
                                || rules->0->JoinRules_0.join_rule == JoinRule::Public) && (
                            membership == Some(Membership::Join) || membership == Some(
                                Membership::Invite,
                            )),
                        ),
                    ),
                }
            },
        }
    }
}

/// Who is in the room and has the level for it invites those who are neither in it nor banned.
pub open spec fn invite_rule(
    rooms: Map<Seq<char>, RoomView>,
    pdu: PduView,
    state: StateView,
    levels: PowerLevelsView,
) -> Option<AuthStatus> {
    match membership_in(rooms, state, pdu.sender) {
        None => None,
        Some(sender) => if sender != Some(Membership::Join) {
            Some(AuthStatus::Fail)
        } else {
            match pdu.state_key {
                None => None,
                Some(target) => match membership_in(rooms, state, target) {
                    None => None,
                    Some(membership) => Some(
                        pass_if(
                            membership != Some(Membership::Join) && membership != Some(
                                Membership::Ban,
                            ) && levels.user_level(pdu.sender) >= levels.invite_level(),
                        ),
                    ),
                },
            }
        },
    }
}

/// Who is in the room leaves it, and who is invited declines. Who is in the room and has the level
/// for it kicks those of a lower level; to lift a ban takes the level for bans too.
pub open spec fn leave_rule(
    rooms: Map<Seq<char>, RoomView>,
    pdu: PduView,
    state: StateView,
    levels: PowerLevelsView,
) -> Option<AuthStatus> {
    match membership_in(rooms, state, pdu.sender) {
        None => None,
        Some(sender) => if pdu.state_key == Some(pdu.sender) {
            Some(pass_if(sender == Some(Membership::Join) || sender == Some(Membership::Invite)))
        } else if sender != Some(Membership::Join) {
            Some(AuthStatus::Fail)
        } else {
            match pdu.state_key {
                None => None,
                Some(target) => match membership_in(rooms, state, target) {
                    None => None,
                    Some(membership) => if membership == Some(Membership::Ban)
                        && levels.user_level(pdu.sender) < levels.ban_level() {
                        Some(AuthStatus::Fail)
                    } else if mxid_verdict(target) is Err {
                        None
                    } else {
                        Some(
                            pass_if(
                                levels.user_level(pdu.sender) >= levels.kick_level()
                                    && levels.user_level(pdu.sender) > levels.user_level(target),
                            ),
                        )
                    },
                },
            }
        },
    }
}

/// Who is in the room and has the level for it bans those of a lower level.
pub open spec fn ban_rule(
    rooms: Map<Seq<char>, RoomView>,
    pdu: PduView,
    state: StateView,
    levels: PowerLevelsView,
) -> Option<AuthStatus> {
    match membership_in(rooms, state, pdu.sender) {
        None => None,
        Some(sender) => if sender != Some(Membership::Join) {
            Some(AuthStatus::Fail)
        } else {
            match pdu.state_key {
                None => None,
                Some(target) => if mxid_verdict(target) is Err {
                    None
                } else {
                    Some(
                        pass_if(
                            levels.user_level(pdu.sender) >= levels.ban_level()
                                && levels.user_level(pdu.sender) > levels.user_level(target),
                        ),
                    )
                },
            }
        },
    }
}

/// The rule for a member event, by what it makes of the user.
pub open spec fn member_rule(
    rooms: Map<Seq<char>, RoomView>,
    pdu: PduView,
    state: StateView,
    levels: PowerLevelsView,
    membership: Membership,
) -> Option<AuthStatus> {
    match membership {
        Membership::Join => join_rule(rooms, pdu, state),
        Membership::Invite => invite_rule(rooms, pdu, state, levels),
        Membership::Leave => leave_rule(rooms, pdu, state, levels),
        Membership::Ban => ban_rule(rooms, pdu, state, levels),
        Membership::Knock => Some(AuthStatus::Fail),
    }
}

/// A level is changed only by who has both the old and the new one.
pub open spec fn may_change(old_level: u32, new_level: u32, sender_level: u32) -> bool {
    old_level != new_level ==> old_level <= sender_level && new_level <= sender_level
}

/// Whether a key has one level before and the same after.
pub open spec fn unchanged(
    before: Map<Seq<char>, u32>,
    after: Map<Seq<char>, u32>,
    key: Seq<char>,
) -> bool {
    before.contains_key(key) && after.contains_key(key) && before[key] == after[key]
}

/// Levels in a map are added, changed and removed only by who has both the old and the new ones.
pub open spec fn may_change_map(
    before: Map<Seq<char>, u32>,
    after: Map<Seq<char>, u32>,
    sender_level: u32,
) -> bool {
    &&& forall|key: Seq<char>| #[trigger]
        after.contains_key(key) && !unchanged(before, after, key) ==> after[key] <= sender_level
            && (before.contains_key(key) ==> before[key] <= sender_level)
    &&& forall|key: Seq<char>| #[trigger]
        before.contains_key(key) && !after.contains_key(key) ==> before[key] <= sender_level
}

/// Nobody changes the level of another user of their own level.
pub open spec fn spares_equals(
    before: Map<Seq<char>, u32>,
    after: Map<Seq<char>, u32>,
    sender: Seq<char>,
    sender_level: u32,
) -> bool {
    forall|key: Seq<char>| #[trigger]
        after.contains_key(key) && before.contains_key(key) && before[key] != after[key] && key
            != sender ==> before[key] != sender_level
}

/// Whether a sender may put new power levels in place of old ones.
pub open spec fn may_change_levels(
    before: PowerLevelsView,
    after: PowerLevelsView,
    sender: Seq<char>,
) -> bool {
    let level = before.user_level(sender);
    &&& may_change(before.ban_level(), after.ban_level(), level)
    &&& may_change(before.invite_level(), after.invite_level(), level)
    &&& may_change(before.kick_level(), after.kick_level(), level)
    &&& may_change(before.redact_level(), after.redact_level(), level)
    &&& may_change(before.events_level(), after.events_level(), level)
    &&& may_change(before.state_level(), after.state_level(), level)
    &&& may_change(before.users_level(), after.users_level(), level)
    &&& may_change_map(before.events, after.events, level)
    &&& may_change_map(before.users, after.users, level)
    &&& spares_equals(before.users, after.users, sender, level)
}

/// The rule for events other than create and member events: the sender is in the room and has the
/// level for the event, and a state key that names a user names the sender. Power levels change
/// only as far as the sender's own, and redactions take a level of their own.
pub open spec fn other_rule(
    rooms: Map<Seq<char>, RoomView>,
    pdu: PduView,
    state: StateView,
    levels: PowerLevelsView,
) -> Option<AuthStatus> {
    match membership_in(rooms, state, pdu.sender) {
        None => None,
        Some(sender) => Some(
            if sender != Some(Membership::Join) {
                AuthStatus::Fail
            } else if pdu.content.label() == "m.room.third_party_invite"@ {
                pass_if(levels.user_level(pdu.sender) >= levels.invite_level())
            } else if levels.user_level(pdu.sender) < levels.event_level(
                pdu.content.label(),
                pdu.state_key is Some,
            ) {
                AuthStatus::Fail
            } else if names_another(pdu.state_key, pdu.sender) {
                AuthStatus::Fail
            } else {
                match pdu.content {
                    ContentView::PowerLevels(new_levels) => pass_if(
                        !state.map.contains_key(("m.room.power_levels"@, ""@))
                            || may_change_levels(levels, new_levels, pdu.sender),
                    ),
                    ContentView::Redaction(_) => pass_if(
                        levels.user_level(pdu.sender) >= levels.redact_level(),
                    ),
                    _ => AuthStatus::Pass,
                }
            },
        ),
    }
}

/// Whether a state key looks like a user's identifier and is not the sender's.
pub open spec fn names_another(state_key: Option<Seq<char>>, sender: Seq<char>) -> bool {
    state_key is Some && state_key->0.len() > 0 && state_key->0[0] == '@' && state_key->0 != sender
}

/// The power levels that count in a state: those of the event, or those that count without one.
/// Nothing is said where the state has no create event.
pub open spec fn levels_in(rooms: Map<Seq<char>, RoomView>, state: StateView) -> Option<
    PowerLevelsView,
> {
    match state_content(rooms, state, ContentKind::Create, ""@) {
        Some(Some(ContentView::Create(create))) => match state_content(
            rooms,
            state,
            ContentKind::PowerLevels,
            ""@,
        ) {
            Some(Some(content)) => Some(content->PowerLevels_0),
            Some(None) => Some(no_event_levels(create.creator)),
            None => None,
        },
        _ => None,
    }
}

/// Whether an event is allowed in a state. Nothing is decided where an event that the decision rests
/// on is missing or of the wrong kind, or where an identifier is malformed.
pub open spec fn auth_rules(
    rooms: Map<Seq<char>, RoomView>,
    pdu: PduView,
    state: StateView,
) -> Option<AuthStatus> {
    if pdu.content is Create {
        create_rule(pdu)
    } else if !cites_state(rooms, pdu.room_id, pdu.auth_events) {
        None
    } else if !cites_create(rooms, pdu.room_id, pdu.auth_events) {
        Some(AuthStatus::Fail)
    } else if pdu.content.label() == "m.room.aliases"@ && pdu.state_key is None {
        Some(AuthStatus::Fail)
    } else {
        match levels_in(rooms, state) {
            Some(levels) => match pdu.content {
                ContentView::Member(member) => member_rule(
                    rooms,
                    pdu,
                    state,
                    levels,
                    member.membership,
                ),
                _ => other_rule(rooms, pdu, state, levels),
            },
            None => None,
        }
    }
}

fn pass_where(condition: bool) -> (s: AuthStatus)
    ensures
        s == pass_if(condition),
{
    if condition {
        AuthStatus::Pass
    } else {
        AuthStatus::Fail
    }
}

/// Whether a result of a check says what the rules say, or the store failed.
pub open spec fn decides<S: Storage>(
    r: Result<Option<AuthStatus>, ErrorKind>,
    verdict: Option<AuthStatus>,
    db: &S,
) -> bool {
    match r {
        Ok(decision) => decision == verdict,
        Err(_) => db_failed(r) && !db.reliable(),
    }
}

fn find_membership<S: Storage>(db: &S, state: &State, user: &str) -> (r: Result<
    Option<Option<Membership>>,
    ErrorKind,
>)
    ensures
        match r {
            Ok(m) => m == membership_in(db@.rooms, state@, user@),
            Err(_) => db_failed(r) && !db.reliable(),
        },
{
    match state.try_get_content::<Member, S>(db, user) {
        Ok(None) => Ok(None),
        Ok(Some(None)) => Ok(Some(None)),
        Ok(Some(Some(content))) => Ok(Some(Some(content.membership))),
        Err(e) => Err(e),
    }
}

fn check_create(pdu: &VersionedPdu) -> (r: Option<AuthStatus>)
    ensures
        r == create_rule(pdu@),
{
    if pdu.prev_events().len() > 0 {
        assert(pdu@.prev_events.len() > 0);
        return Some(AuthStatus::Fail);
    }
    match split_once(pdu.room_id(), ':') {
        Some((_, server)) => Some(pass_where(same(pdu.sender().domain(), server.as_str()))),
        None => None,
    }
}

/// Whether the create event is cited as authority; `None` where an event that is cited is missing or
/// is no state event.
fn check_cited<S: Storage>(db: &S, pdu: &VersionedPdu) -> (r: Result<Option<bool>, ErrorKind>)
    ensures
        match r {
            Ok(Some(b)) => cites_state(db@.rooms, pdu@.room_id, pdu@.auth_events) && b
                == cites_create(db@.rooms, pdu@.room_id, pdu@.auth_events),
            Ok(None) => !cites_state(db@.rooms, pdu@.room_id, pdu@.auth_events),
            Err(_) => db_failed(r) && !db.reliable(),
        },
{
    let ids = pdu.auth_events();
    let ghost all = pdu@.auth_events;
    let mut found = false;
    let mut i: usize = 0;
    while i < ids.len()
        invariant
            i <= ids@.len(),
            all == texts(ids@),
            all == pdu@.auth_events,
            forall|j: int|
                0 <= j < i ==> find_pdu(db@.rooms, pdu@.room_id, #[trigger] all[j]) is Some
                    && find_pdu(db@.rooms, pdu@.room_id, all[j])->0.pdu.state_key is Some,
            found == (exists|j: int|
                0 <= j < i && is_state_of(
                    find_pdu(db@.rooms, pdu@.room_id, #[trigger] all[j])->0,
                    "m.room.create"@,
                    ""@,
                )),
        decreases ids@.len() - i,
    {
        assert(all[i as int] == ids@[i as int]@);
        match db.get_pdu(pdu.room_id(), ids[i].as_str()) {
            Ok(Some(event)) => {
                match event.state_key() {
                    Some(key) => {
                        if same(event.event_content().get_type(), "m.room.create") && same(
                            key,
                            "",
                        ) {
                            found = true;
                        }
                    },
                    None => return Ok(None),
                }
            },
            Ok(None) => return Ok(None),
            Err(e) => return Err(e),
        }
        i += 1;
    }
    Ok(Some(found))
}

fn check_join<S: Storage>(db: &S, pdu: &VersionedPdu, state: &State) -> (r: Result<
    Option<AuthStatus>,
    ErrorKind,
>)
    ensures
        decides(r, join_rule(db@.rooms, pdu@, state@), db),
{
    // do step 5-2-2 before 5-2-1 because it makes more sense
    // users can't set other users' membership to join
    let own = match pdu.state_key() {
        Some(key) => same(key, pdu.sender().as_str()),
        None => false,
    };
    if !own {
        return Ok(Some(AuthStatus::Fail));
    }
    // if the room has just been created by this user, allow them to join
    let prev_events = pdu.prev_events();
    assert(pdu@.prev_events.len() == prev_events@.len());
    if prev_events.len() == 1 {
        assert(pdu@.prev_events[0] == prev_events@[0]@);
        return match db.get_pdu(pdu.room_id(), prev_events[0].as_str()) {
            Ok(Some(prev)) => match prev.event_content() {
                EventContent::Create(create) => Ok(
                    Some(pass_where(same(pdu.sender().as_str(), create.creator.as_str()))),
                ),
                _ => Ok(None),
            },
            Ok(None) => Ok(None),
            Err(e) => Err(e),
        };
    }
    // get the user's membership in this room if they have one
    let membership = match find_membership(db, state, pdu.sender().as_str()) {
        Ok(Some(m)) => m,
        Ok(None) => return Ok(None),
        Err(e) => return Err(e),
    };
    // don't let banned users join
    if let Some(Membership::Ban) = membership {
        return Ok(Some(AuthStatus::Fail));
    }
    // get the room's join rules
    let rules = match state.try_get_content::<JoinRules, S>(db, "") {
        Ok(Some(rules)) => rules,
        Ok(None) => return Ok(None),
        Err(e) => return Err(e),
    };
    let open = match rules {
        Some(rules) => rules.join_rule == JoinRule::Invite || rules.join_rule == JoinRule::Public,
        None => false,
    };
    let welcome = match membership {
        Some(m) => m == Membership::Join || m == Membership::Invite,
        None => false,
    };
    Ok(Some(pass_where(open && welcome)))
}

fn check_invite<S: Storage>(
    db: &S,
    pdu: &VersionedPdu,
    state: &State,
    levels: &PowerLevels,
) -> (r: Result<Option<AuthStatus>, ErrorKind>)
    ensures
        decides(r, invite_rule(db@.rooms, pdu@, state@, levels@), db),
{
    // get the sender's membership in this room if they have one
    match find_membership(db, state, pdu.sender().as_str()) {
        Ok(Some(Some(Membership::Join))) => {},
        // can't invite people if you're not in the room yourself
        Ok(Some(_)) => return Ok(Some(AuthStatus::Fail)),
        Ok(None) => return Ok(None),
        Err(e) => return Err(e),
    }
    // can't invite people if they're banned or already in
    let target = match pdu.state_key() {
        Some(key) => key,
        None => return Ok(None),
    };
    match find_membership(db, state, target) {
        Ok(Some(Some(Membership::Join))) | Ok(Some(Some(Membership::Ban))) => return Ok(
            Some(AuthStatus::Fail),
        ),
        Ok(Some(_)) => {},
        Ok(None) => return Ok(None),
        Err(e) => return Err(e),
    }
    // can't invite people if you don't have permission to do so
    Ok(Some(pass_where(levels.get_user_level(pdu.sender()) >= levels.invite())))
}

fn check_leave<S: Storage>(
    db: &S,
    pdu: &VersionedPdu,
    state: &State,
    levels: &PowerLevels,
) -> (r: Result<Option<AuthStatus>, ErrorKind>)
    ensures
        decides(r, leave_rule(db@.rooms, pdu@, state@, levels@), db),
{
    let sender_membership = match find_membership(db, state, pdu.sender().as_str()) {
        Ok(Some(m)) => m,
        Ok(None) => return Ok(None),
        Err(e) => return Err(e),
    };
    // if a user is leaving of their own accord, only allow it if they were
    // previously in the room, or if they are declining an invite
    let own = match pdu.state_key() {
        Some(key) => same(key, pdu.sender().as_str()),
        None => false,
    };
    if own {
        let was_in = match sender_membership {
            Some(m) => m == Membership::Join || m == Membership::Invite,
            None => false,
        };
        return Ok(Some(pass_where(was_in)));
    }
    // can't kick if you're not a member
    match sender_membership {
        Some(Membership::Join) => {},
        _ => return Ok(Some(AuthStatus::Fail)),
    }
    let target = match pdu.state_key() {
        Some(key) => key,
        None => return Ok(None),
    };
    let target_membership = match find_membership(db, state, target) {
        Ok(Some(m)) => m,
        Ok(None) => return Ok(None),
        Err(e) => return Err(e),
    };
    let sender_level = levels.get_user_level(pdu.sender());
    // can't turn someone's ban to a kick if you don't have permission to unban
    let banned = match target_membership {
        Some(m) => m == Membership::Ban,
        None => false,
    };
    if banned && sender_level < levels.ban() {
        return Ok(Some(AuthStatus::Fail));
    }
    // can only kick someone if you have permission to kick, and they're lower than
    // you in power level
    match MatrixId::parse(target) {
        Ok(target_id) => Ok(
            Some(
                pass_where(
                    sender_level >= levels.kick() && sender_level > levels.get_user_level(
                        &target_id,
                    ),
                ),
            ),
        ),
        Err(_) => Ok(None),
    }
}

fn check_ban<S: Storage>(
    db: &S,
    pdu: &VersionedPdu,
    state: &State,
    levels: &PowerLevels,
) -> (r: Result<Option<AuthStatus>, ErrorKind>)
    ensures
        decides(r, ban_rule(db@.rooms, pdu@, state@, levels@), db),
{
    match find_membership(db, state, pdu.sender().as_str()) {
        Ok(Some(Some(Membership::Join))) => {},
        // can't ban someone if you're not a member
        Ok(Some(_)) => return Ok(Some(AuthStatus::Fail)),
        Ok(None) => return Ok(None),
        Err(e) => return Err(e),
    }
    let sender_level = levels.get_user_level(pdu.sender());
    let target = match pdu.state_key() {
        Some(key) => key,
        None => return Ok(None),
    };
    match MatrixId::parse(target) {
        Ok(target_id) => Ok(
            Some(
                pass_where(
                    sender_level >= levels.ban() && sender_level > levels.get_user_level(
                        &target_id,
                    ),
                ),
            ),
        ),
        Err(_) => Ok(None),
    }
}

fn change_allowed(old_level: u32, new_level: u32, sender_level: u32) -> (r: bool)
    ensures
        r == may_change(old_level, new_level, sender_level),
{
    old_level == new_level || (old_level <= sender_level && new_level <= sender_level)
}

/// Whether a sender may put new levels in a map in place of old ones.
fn map_change_allowed<K: Key<V = Seq<char>>>(
    before: &Dict<K, u32>,
    after: &Dict<K, u32>,
    sender_level: u32,
) -> (r: bool)
    ensures
        r == may_change_map(before@, after@, sender_level),
{
    let ghost added = after.listing();
    let n: usize = after.len();
    let mut i: usize = 0;
    while i < n
        invariant
            i <= n == added.len(),
            added == after.listing(),
            distinct_keys(added),
            forall|j: int|
                0 <= j < i && !unchanged(before@, after@, (#[trigger] added[j]).0)
                    ==> after@[added[j].0] <= sender_level && (before@.contains_key(added[j].0)
                    ==> before@[added[j].0] <= sender_level),
        decreases n - i,
    {
        let e = after.entry(i);
        let new_value = *e.1;
        match before.get(e.0) {
            Some(old_value) => {
                if *old_value != new_value && (new_value > sender_level || *old_value
                    > sender_level) {
                    assert(!unchanged(before@, after@, e.0@));
                    return false;
                }
            },
            None => {
                if new_value > sender_level {
                    assert(!unchanged(before@, after@, e.0@));
                    return false;
                }
            },
        }
        i += 1;
    }
    let ghost removed = before.listing();
    let m: usize = before.len();
    let mut i: usize = 0;
    while i < m
        invariant
            i <= m == removed.len(),
            removed == before.listing(),
            distinct_keys(removed),
            forall|j: int|
                0 <= j < i && !after@.contains_key((#[trigger] removed[j]).0)
                    ==> before@[removed[j].0] <= sender_level,
        decreases m - i,
    {
        let e = before.entry(i);
        if !after.contains(e.0) && *e.1 > sender_level {
            return false;
        }
        i += 1;
    }
    proof {
        assert forall|key: Seq<char>| #[trigger]
            after@.contains_key(key) && !unchanged(before@, after@, key) implies after@[key]
            <= sender_level && (before@.contains_key(key) ==> before@[key] <= sender_level) by {
            assert(has_key(added, key));
            let j = choose|j: int| 0 <= j < added.len() && (#[trigger] added[j]).0 == key;
            assert(added[j].0 == key);
        }
        assert forall|key: Seq<char>| #[trigger]
            before@.contains_key(key) && !after@.contains_key(key) implies before@[key]
            <= sender_level by {
            assert(has_key(removed, key));
            let j = choose|j: int| 0 <= j < removed.len() && (#[trigger] removed[j]).0 == key;
            assert(removed[j].0 == key);
        }
    }
    true
}

fn equals_spared(
    before: &Dict<MatrixId, u32>,
    after: &Dict<MatrixId, u32>,
    sender: &MatrixId,
    sender_level: u32,
) -> (r: bool)
    ensures
        r == spares_equals(before@, after@, sender@, sender_level),
{
    let ghost added = after.listing();
    let n: usize = after.len();
    let mut i: usize = 0;
    while i < n
        invariant
            i <= n == added.len(),
            added == after.listing(),
            distinct_keys(added),
            forall|j: int|
                0 <= j < i && before@.contains_key((#[trigger] added[j]).0)
                    && before@[added[j].0] != after@[added[j].0] && added[j].0 != sender@
                    ==> before@[added[j].0] != sender_level,
        decreases n - i,
    {
        let e = after.entry(i);
        match before.get(e.0) {
            Some(old_value) => {
                if *old_value != *e.1 && !same(e.0.as_str(), sender.as_str()) && *old_value
                    == sender_level {
                    return false;
                }
            },
            None => {},
        }
        i += 1;
    }
    proof {
        assert forall|key: Seq<char>| #[trigger]
            after@.contains_key(key) && before@.contains_key(key) && before@[key] != after@[key]
                && key != sender@ implies before@[key] != sender_level by {
            assert(has_key(added, key));
            let j = choose|j: int| 0 <= j < added.len() && (#[trigger] added[j]).0 == key;
            assert(added[j].0 == key);
        }
    }
    true
}

/// Whether a sender may put new power levels in place of old ones.
pub fn level_change_allowed(before: &PowerLevels, after: &PowerLevels, sender: &MatrixId) -> (r:
    bool)
    ensures
        r == may_change_levels(before@, after@, sender@),
{
    let level = before.get_user_level(sender);
    change_allowed(before.ban(), after.ban(), level) && change_allowed(
        before.invite(),
        after.invite(),
        level,
    ) && change_allowed(before.kick(), after.kick(), level) && change_allowed(
        before.redact(),
        after.redact(),
        level,
    ) && change_allowed(before.events_default(), after.events_default(), level) && change_allowed(
        before.state_default(),
        after.state_default(),
        level,
    ) && change_allowed(before.users_default(), after.users_default(), level)
        && map_change_allowed(&before.events, &after.events, level) && map_change_allowed(
        &before.users,
        &after.users,
        level,
    ) && equals_spared(&before.users, &after.users, sender, level)
}

fn check_other<S: Storage>(
    db: &S,
    pdu: &VersionedPdu,
    state: &State,
    levels: &PowerLevels,
) -> (r: Result<Option<AuthStatus>, ErrorKind>)
    ensures
        !(pdu@.content is Create) && !(pdu@.content is Member) ==> decides(
            r,
            other_rule(db@.rooms, pdu@, state@, levels@),
            db,
        ),
{
    match find_membership(db, state, pdu.sender().as_str()) {
        Ok(Some(Some(Membership::Join))) => {},
        Ok(Some(_)) => return Ok(Some(AuthStatus::Fail)),
        Ok(None) => return Ok(None),
        Err(e) => return Err(e),
    }
    let user_level = levels.get_user_level(pdu.sender());
    let ty = pdu.event_content().get_type();
    if same(ty, "m.room.third_party_invite") {
        return Ok(Some(pass_where(user_level >= levels.invite())));
    }
    if user_level < levels.get_event_level(ty, pdu.state_key().is_some()) {
        return Ok(Some(AuthStatus::Fail));
    }
    match pdu.state_key() {
        Some(state_key) => {
            let chars = chars_of(state_key);
            if chars.len() > 0 && chars[0] == '@' && !same(state_key, pdu.sender().as_str()) {
                return Ok(Some(AuthStatus::Fail));
            }
        },
        None => {},
    }
    match pdu.event_content() {
        EventContent::PowerLevels(new_levels) => {
            // if there is no event then the levels are the effective power levels, so
            // we can't check via that and we have to hit the state map again
            if state.get(("m.room.power_levels", "")).is_none() {
                return Ok(Some(AuthStatus::Pass));
            }
            Ok(Some(pass_where(level_change_allowed(levels, new_levels, pdu.sender()))))
        },
        EventContent::Redaction(_) => Ok(Some(pass_where(user_level >= levels.redact()))),
        _ => Ok(Some(AuthStatus::Pass)),
    }
}

/// Whether an event is allowed in a state; `None` where an event that the decision rests on is
/// missing or of the wrong kind, or where an identifier is malformed.
pub fn try_auth_check<S: Storage>(db: &S, pdu: &VersionedPdu, state: &State) -> (r: Result<
    Option<AuthStatus>,
    ErrorKind,
>)
    ensures
        decides(r, auth_rules(db@.rooms, pdu@, state@), db),
{
    if let EventContent::Create(_) = pdu.event_content() {
        return Ok(check_create(pdu));
    }
    match check_cited(db, pdu) {
        Ok(Some(true)) => {},
        Ok(Some(false)) => return Ok(Some(AuthStatus::Fail)),
        Ok(None) => return Ok(None),
        Err(e) => return Err(e),
    }
    if same(pdu.event_content().get_type(), "m.room.aliases") && pdu.state_key().is_none() {
        return Ok(Some(AuthStatus::Fail));
    }
    let creator = match state.try_get_content::<Create, S>(db, "") {
        Ok(Some(Some(create))) => create.creator,
        Ok(_) => return Ok(None),
        Err(e) => return Err(e),
    };
    let levels = match state.try_get_content::<PowerLevels, S>(db, "") {
        Ok(Some(Some(levels))) => levels,
        Ok(Some(None)) => PowerLevels::no_event_default_levels(&creator),
        Ok(None) => return Ok(None),
        Err(e) => return Err(e),
    };
    match pdu.event_content() {
        EventContent::Member(content) => match content.membership {
            Membership::Join => check_join(db, pdu, state),
            Membership::Invite => check_invite(db, pdu, state, &levels),
            Membership::Leave => check_leave(db, pdu, state, &levels),
            Membership::Ban => check_ban(db, pdu, state, &levels),
            Membership::Knock => Ok(Some(AuthStatus::Fail)),
        },
        _ => check_other(db, pdu, state, &levels),
    }
}

/// Whether an event is allowed in a state.
pub fn auth_check_v1<S: Storage>(db: &S, pdu: &VersionedPdu, state: &State) -> (r: Result<
    AuthStatus,
    ErrorKind,
>)
    requires
        auth_rules(db@.rooms, pdu@, state@) is Some,
    ensures
        match r {
            Ok(status) => auth_rules(db@.rooms, pdu@, state@) == Some(status),
            Err(_) => db_failed(r) && !db.reliable(),
        },
{
    match try_auth_check(db, pdu, state) {
        Ok(decision) => Ok(decision.unwrap()),
        Err(e) => Err(e),
    }
}

/// Nobody can make someone else a member who has joined.
pub proof fn law_join_for_oneself(
    rooms: Map<Seq<char>, RoomView>,
    pdu: PduView,
    state: StateView,
)
    requires
        pdu.content is Member,
        pdu.content->Member_0.membership == Membership::Join,
        auth_rules(rooms, pdu, state) == Some(AuthStatus::Pass),
    ensures
        pdu.state_key == Some(pdu.sender),
{
}

/// Those who are banned cannot join again, except as the creator right after the creation.
pub proof fn law_banned_stay_out(
    rooms: Map<Seq<char>, RoomView>,
    pdu: PduView,
    state: StateView,
)
    requires
        pdu.content is Member,
        pdu.content->Member_0.membership == Membership::Join,
        pdu.prev_events.len() != 1,
        membership_in(rooms, state, pdu.sender) == Some(Some(Membership::Ban)),
    ensures
        auth_rules(rooms, pdu, state) != Some(AuthStatus::Pass),
{
}

/// Only those who have joined can invite, ban, kick, or send anything but memberships.
pub proof fn law_members_only(
    rooms: Map<Seq<char>, RoomView>,
    pdu: PduView,
    state: StateView,
)
    requires
        auth_rules(rooms, pdu, state) == Some(AuthStatus::Pass),
        !(pdu.content is Create),
        pdu.content is Member ==> {
            let membership = pdu.content->Member_0.membership;
            membership == Membership::Invite || membership == Membership::Ban || (membership
                == Membership::Leave && pdu.state_key != Some(pdu.sender))
        },
    ensures
        membership_in(rooms, state, pdu.sender) == Some(Some(Membership::Join)),
{
}

/// Nobody can give anyone a level above their own by a change of levels, nor take one from anyone
/// who has a level above their own, nor, but for themselves, from anyone who has the same.
pub proof fn law_no_power_grab(
    before: PowerLevelsView,
    after: PowerLevelsView,
    sender: Seq<char>,
    user: Seq<char>,
)
    requires
        may_change_levels(before, after, sender),
        after.users.contains_key(user),
        !unchanged(before.users, after.users, user),
    ensures
        after.users[user] <= before.user_level(sender),
        before.users.contains_key(user) ==> before.users[user] <= before.user_level(sender),
        before.users.contains_key(user) && user != sender ==> before.users[user]
            < before.user_level(sender),
{
}

/// A ban or a kick needs a level above that of the target, and the level for it.
pub proof fn law_power_over_target(
    rooms: Map<Seq<char>, RoomView>,
    pdu: PduView,
    state: StateView,
    levels: PowerLevelsView,
    target: Seq<char>,
)
    requires
        pdu.content is Member,
        pdu.state_key == Some(target),
        target != pdu.sender,
        levels_in(rooms, state) == Some(levels),
        pdu.content->Member_0.membership == Membership::Ban
            || pdu.content->Member_0.membership == Membership::Leave,
        auth_rules(rooms, pdu, state) == Some(AuthStatus::Pass),
    ensures
        levels.user_level(pdu.sender) > levels.user_level(target),
        pdu.content->Member_0.membership == Membership::Ban ==> levels.user_level(pdu.sender)
            >= levels.ban_level(),
        pdu.content->Member_0.membership == Membership::Leave ==> levels.user_level(pdu.sender)
            >= levels.kick_level(),
{
}

} // verus!
