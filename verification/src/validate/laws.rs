//! Who may do what in a room.
use crate::error::ErrorKind;
use crate::events::room::{JoinRule, Membership, PowerLevels, PowerLevelsView};
use crate::events::room_version::v4::PduView;
use crate::events::room_version::VersionedPdu;
use crate::state::{State, StateView};
use crate::storage::{find_pdu, RoomView, Storage};
use crate::util::mxid::{mxid_verdict, MatrixId};
use crate::validate::auth::{auth_check_v1, auth_rules, try_auth_check, AuthStatus};
use vstd::prelude::*;

verus! {

/// The event that a state names for a type and a key.
pub open spec fn named(
    rooms: Map<Seq<char>, RoomView>,
    state: StateView,
    ty: Seq<char>,
    key: Seq<char>,
) -> Option<PduView> {
    if state.map.contains_key((ty, key)) {
        Some(find_pdu(rooms, state.room_id, state.map[(ty, key)])->0.pdu)
    } else {
        None
    }
}

/// How a user stands to the room by the event that the state names.
pub open spec fn standing(
    rooms: Map<Seq<char>, RoomView>,
    state: StateView,
    user: Seq<char>,
) -> Option<Membership> {
    match named(rooms, state, "m.room.member"@, user) {
        Some(pdu) => Some(pdu.content->Member_0.membership),
        None => None,
    }
}

/// The power levels event that the state names.
pub open spec fn levels_event(
    rooms: Map<Seq<char>, RoomView>,
    state: StateView,
) -> Option<PowerLevelsView> {
    match named(rooms, state, "m.room.power_levels"@, ""@) {
        Some(pdu) => Some(pdu.content->PowerLevels_0),
        None => None,
    }
}

/// A level that is given, or else another.
pub open spec fn given_or(level: Option<u32>, otherwise: int) -> int {
    match level {
        Some(n) => n as int,
        None => otherwise,
    }
}

/// The power of a user: what the power levels event says of them, or of users in general. Without such
/// an event the creator of the room has 100, and others have none.
pub open spec fn power(
    rooms: Map<Seq<char>, RoomView>,
    state: StateView,
    user: Seq<char>,
) -> int {
    match levels_event(rooms, state) {
        Some(levels) => if levels.users.contains_key(user) {
            levels.users[user] as int
        } else {
            given_or(levels.users_default, 0)
        },
        None => if user == named(
            rooms,
            state,
            "m.room.create"@,
            ""@,
        )->0.content->Create_0.creator {
            100
        } else {
            0
        },
    }
}

/// What it takes to invite.
pub open spec fn to_invite(rooms: Map<Seq<char>, RoomView>, state: StateView) -> int {
    match levels_event(rooms, state) {
        Some(levels) => given_or(levels.invite, 50),
        None => 50,
    }
}

/// What it takes to kick.
pub open spec fn to_kick(rooms: Map<Seq<char>, RoomView>, state: StateView) -> int {
    match levels_event(rooms, state) {
        Some(levels) => given_or(levels.kick, 50),
        None => 50,
    }
}

/// What it takes to ban.
pub open spec fn to_ban(rooms: Map<Seq<char>, RoomView>, state: StateView) -> int {
    match levels_event(rooms, state) {
        Some(levels) => given_or(levels.ban, 50),
        None => 50,
    }
}

/// What it takes to redact.
pub open spec fn to_redact(rooms: Map<Seq<char>, RoomView>, state: StateView) -> int {
    match levels_event(rooms, state) {
        Some(levels) => given_or(levels.redact, 50),
        None => 50,
    }
}

/// What it takes to send an event: the level that is given for its type, or else the one for state events
/// or that for other events.
pub open spec fn to_send(
    rooms: Map<Seq<char>, RoomView>,
    state: StateView,
    ty: Seq<char>,
    is_state: bool,
) -> int {
    match levels_event(rooms, state) {
        Some(levels) => if levels.events.contains_key(ty) {
            levels.events[ty] as int
        } else if is_state {
            given_or(levels.state_default, 50)
        } else {
            given_or(levels.events_default, 0)
        },
        None => 0,
    }
}

/// Whether all events that a verdict rests on are there: a power levels event only where the state has
/// one, and the create event.
pub open spec fn grounded(
    rooms: Map<Seq<char>, RoomView>,
    pdu: PduView,
    state: StateView,
) -> bool {
    &&& forall|i: int|
        0 <= i < pdu.auth_events.len() ==> find_pdu(
            rooms,
            pdu.room_id,
            #[trigger] pdu.auth_events[i],
        ) is Some && find_pdu(rooms, pdu.room_id, pdu.auth_events[i])->0.pdu.state_key is Some
    &&& exists|i: int|
        0 <= i < pdu.auth_events.len() && ({
            let cited = find_pdu(rooms, pdu.room_id, #[trigger] pdu.auth_events[i])->0.pdu;
            cited.content.label() == "m.room.create"@ && cited.state_key == Some(""@)
        })
    &&& state.map.contains_key(("m.room.create"@, ""@))
    &&& forall|key: (Seq<char>, Seq<char>)| #[trigger]
        state.map.contains_key(key) ==> find_pdu(rooms, state.room_id, state.map[key]) is Some
    &&& named(rooms, state, "m.room.create"@, ""@)->0.content is Create
    &&& named(rooms, state, "m.room.power_levels"@, ""@) matches Some(e) ==> e.content is PowerLevels
    &&& named(rooms, state, "m.room.join_rules"@, ""@) matches Some(e) ==> e.content is JoinRules
    &&& forall|user: Seq<char>|
        (#[trigger] named(rooms, state, "m.room.member"@, user)) matches Some(e)
            ==> e.content is Member
}

/// A create event is allowed only at the start of a room, for a user of the server that the room is named
/// after.
pub proof fn law_who_creates(
    rooms: Map<Seq<char>, RoomView>,
    pdu: PduView,
    state: StateView,
    number: Seq<char>,
    server: Seq<char>,
)
    requires
        pdu.content is Create,
        pdu.room_id == number + seq![':'] + server,
        !number.contains(':'),
    ensures
        auth_rules(rooms, pdu, state) == Some(
            if pdu.prev_events.len() == 0 && crate::util::mxid::domain_of(pdu.sender) == server {
                AuthStatus::Pass
            } else {
                AuthStatus::Fail
            },
        ),
{
    let at = number.len() as int;
    assert forall|i: int| 0 <= i < at implies #[trigger] pdu.room_id[i] != ':' by {
        assert(pdu.room_id[i] == number[i]);
        assert(number.contains(number[i]));
    }
    assert(pdu.room_id[at] == ':');
    crate::text::lemma_first_split(pdu.room_id, ':', at);
    assert(pdu.room_id.skip(at + 1) =~= server);
}

/// Nothing but a create event is allowed that does not cite the create event, and no aliases without a
/// state key.
pub proof fn law_cites_creation(
    rooms: Map<Seq<char>, RoomView>,
    pdu: PduView,
    state: StateView,
)
    requires
        !(pdu.content is Create),
        auth_rules(rooms, pdu, state) == Some(AuthStatus::Pass),
    ensures
        exists|i: int|
            0 <= i < pdu.auth_events.len() && ({
                let cited = find_pdu(rooms, pdu.room_id, #[trigger] pdu.auth_events[i]);
                cited is Some && cited->0.pdu.content.label() == "m.room.create"@
                    && cited->0.pdu.state_key == Some(""@)
            }),
        pdu.content.label() == "m.room.aliases"@ ==> pdu.state_key is Some,
        state.map.contains_key(("m.room.create"@, ""@)),
{
    let ids = pdu.auth_events;
    let i = choose|i: int|
        0 <= i < ids.len() && crate::storage::is_state_of(
            find_pdu(rooms, pdu.room_id, #[trigger] ids[i])->0,
            "m.room.create"@,
            ""@,
        );
    assert(find_pdu(rooms, pdu.room_id, ids[i]) is Some);
}

/// A user joins for themselves: the creator right after the creation, and otherwise those who are invited
/// or have joined already, where the room takes invitations or is public.
pub proof fn law_who_joins(rooms: Map<Seq<char>, RoomView>, pdu: PduView, state: StateView)
    requires
        grounded(rooms, pdu, state),
        pdu.content is Member,
        pdu.content->Member_0.membership == Membership::Join,
    ensures
        pdu.state_key != Some(pdu.sender) ==> auth_rules(rooms, pdu, state) == Some(
            AuthStatus::Fail,
        ),
        pdu.state_key == Some(pdu.sender) && pdu.prev_events.len() == 1 && ({
            let before = find_pdu(rooms, pdu.room_id, pdu.prev_events[0]);
            before is Some && before->0.pdu.content is Create
        }) ==> auth_rules(rooms, pdu, state) == Some(
            if pdu.sender == find_pdu(
                rooms,
                pdu.room_id,
                pdu.prev_events[0],
            )->0.pdu.content->Create_0.creator {
                AuthStatus::Pass
            } else {
                AuthStatus::Fail
            },
        ),
        pdu.state_key == Some(pdu.sender) && pdu.prev_events.len() != 1 ==> auth_rules(
            rooms,
            pdu,
            state,
        ) == Some(
            if (standing(rooms, state, pdu.sender) == Some(Membership::Join) || standing(
                rooms,
                state,
                pdu.sender,
            ) == Some(Membership::Invite)) && ({
                let rules = named(rooms, state, "m.room.join_rules"@, ""@);
                rules is Some && (rules->0.content->JoinRules_0.join_rule == JoinRule::Public
                    || rules->0.content->JoinRules_0.join_rule == JoinRule::Invite)
            }) {
                AuthStatus::Pass
            } else {
                AuthStatus::Fail
            },
        ),
{
    lemma_grounded(rooms, pdu, state, pdu.sender);
}

/// Whoever has joined and has the power for it invites users who have not joined and are not banned.
pub proof fn law_who_invites(
    rooms: Map<Seq<char>, RoomView>,
    pdu: PduView,
    state: StateView,
    target: Seq<char>,
)
    requires
        grounded(rooms, pdu, state),
        pdu.content is Member,
        pdu.content->Member_0.membership == Membership::Invite,
        pdu.state_key == Some(target),
    ensures
        auth_rules(rooms, pdu, state) == Some(
            if standing(rooms, state, pdu.sender) == Some(Membership::Join) && standing(
                rooms,
                state,
                target,
            ) != Some(Membership::Join) && standing(rooms, state, target) != Some(Membership::Ban)
                && power(rooms, state, pdu.sender) >= to_invite(rooms, state) {
                AuthStatus::Pass
            } else {
                AuthStatus::Fail
            },
        ),
{
    lemma_grounded(rooms, pdu, state, pdu.sender);
    lemma_grounded(rooms, pdu, state, target);
}

/// Users leave who have joined or are invited. Whoever has joined and has the power for it makes others
/// leave who have less power; those who are banned only with the power to ban.
pub proof fn law_who_leaves(
    rooms: Map<Seq<char>, RoomView>,
    pdu: PduView,
    state: StateView,
    target: Seq<char>,
)
    requires
        grounded(rooms, pdu, state),
        pdu.content is Member,
        pdu.content->Member_0.membership == Membership::Leave,
        pdu.state_key == Some(target),
        mxid_verdict(target) is Ok,
    ensures
        target == pdu.sender ==> auth_rules(rooms, pdu, state) == Some(
            if standing(rooms, state, target) == Some(Membership::Join) || standing(
                rooms,
                state,
                target,
            ) == Some(Membership::Invite) {
                AuthStatus::Pass
            } else {
                AuthStatus::Fail
            },
        ),
        target != pdu.sender ==> auth_rules(rooms, pdu, state) == Some(
            if standing(rooms, state, pdu.sender) == Some(Membership::Join) && power(
                rooms,
                state,
                pdu.sender,
            ) >= to_kick(rooms, state) && power(rooms, state, pdu.sender) > power(
                rooms,
                state,
                target,
            ) && (standing(rooms, state, target) == Some(Membership::Ban) ==> power(
                rooms,
                state,
                pdu.sender,
            ) >= to_ban(rooms, state)) {
                AuthStatus::Pass
            } else {
                AuthStatus::Fail
            },
        ),
{
    lemma_grounded(rooms, pdu, state, pdu.sender);
    lemma_grounded(rooms, pdu, state, target);
}

/// Whoever has joined and has the power for it bans those who have less power.
pub proof fn law_who_bans(
    rooms: Map<Seq<char>, RoomView>,
    pdu: PduView,
    state: StateView,
    target: Seq<char>,
)
    requires
        grounded(rooms, pdu, state),
        pdu.content is Member,
        pdu.content->Member_0.membership == Membership::Ban,
        pdu.state_key == Some(target),
        mxid_verdict(target) is Ok,
    ensures
        auth_rules(rooms, pdu, state) == Some(
            if standing(rooms, state, pdu.sender) == Some(Membership::Join) && power(
                rooms,
                state,
                pdu.sender,
            ) >= to_ban(rooms, state) && power(rooms, state, pdu.sender) > power(
                rooms,
                state,
                target,
            ) {
                AuthStatus::Pass
            } else {
                AuthStatus::Fail
            },
        ),
{
    lemma_grounded(rooms, pdu, state, pdu.sender);
    lemma_grounded(rooms, pdu, state, target);
}

/// Nobody knocks.
pub proof fn law_nobody_knocks(rooms: Map<Seq<char>, RoomView>, pdu: PduView, state: StateView)
    requires
        pdu.content is Member,
        pdu.content->Member_0.membership == Membership::Knock,
    ensures
        auth_rules(rooms, pdu, state) != Some(AuthStatus::Pass),
        grounded(rooms, pdu, state) ==> auth_rules(rooms, pdu, state) == Some(AuthStatus::Fail),
{
    if grounded(rooms, pdu, state) {
        lemma_grounded(rooms, pdu, state, pdu.sender);
    }
}

/// Whether an event is of none of the types for which there are rules of their own.
pub open spec fn has_no_rule_of_its_own(pdu: PduView) -> bool {
    &&& !(pdu.content is Create) && !(pdu.content is Member)
    &&& !(pdu.content is PowerLevels) && !(pdu.content is Redaction)
    &&& pdu.content.label() != "m.room.third_party_invite"@
    &&& pdu.content.label() == "m.room.aliases"@ ==> pdu.state_key is Some
}

/// Whether a state key stands for another user than the sender.
pub open spec fn for_another(pdu: PduView) -> bool {
    pdu.state_key matches Some(key) && key.len() > 0 && key[0] == '@' && key != pdu.sender
}

/// Whoever has joined sends an event who has the power that its type needs: the level that is listed for
/// the type, or else that for state events where it has a state key, and that for other events where it
/// has none. A state key that stands for a user is the sender's.
pub proof fn law_who_sends(rooms: Map<Seq<char>, RoomView>, pdu: PduView, state: StateView)
    requires
        grounded(rooms, pdu, state),
        has_no_rule_of_its_own(pdu),
    ensures
        auth_rules(rooms, pdu, state) == Some(
            if standing(rooms, state, pdu.sender) == Some(Membership::Join) && power(
                rooms,
                state,
                pdu.sender,
            ) >= to_send(rooms, state, pdu.content.label(), pdu.state_key is Some) && !for_another(
                pdu,
            ) {
                AuthStatus::Pass
            } else {
                AuthStatus::Fail
            },
        ),
{
    lemma_grounded(rooms, pdu, state, pdu.sender);
}

/// The sender of an event that is allowed has the power that its type needs, whatever the event is, but
/// for memberships, invitations of third parties and creations.
pub proof fn law_power_to_send(rooms: Map<Seq<char>, RoomView>, pdu: PduView, state: StateView)
    requires
        !(pdu.content is Create) && !(pdu.content is Member),
        pdu.content.label() != "m.room.third_party_invite"@,
        auth_rules(rooms, pdu, state) == Some(AuthStatus::Pass),
    ensures
        standing(rooms, state, pdu.sender) == Some(Membership::Join),
        power(rooms, state, pdu.sender) >= to_send(
            rooms,
            state,
            pdu.content.label(),
            pdu.state_key is Some,
        ),
        !for_another(pdu),
        pdu.content is Redaction ==> power(rooms, state, pdu.sender) >= to_redact(rooms, state),
{
}

/// Whoever has joined redacts who has the power for it, besides that to send such an event.
pub proof fn law_who_redacts(rooms: Map<Seq<char>, RoomView>, pdu: PduView, state: StateView)
    requires
        grounded(rooms, pdu, state),
        pdu.content is Redaction,
    ensures
        auth_rules(rooms, pdu, state) == Some(
            if standing(rooms, state, pdu.sender) == Some(Membership::Join) && power(
                rooms,
                state,
                pdu.sender,
            ) >= to_send(rooms, state, pdu.content.label(), pdu.state_key is Some) && !for_another(
                pdu,
            ) && power(rooms, state, pdu.sender) >= to_redact(rooms, state) {
                AuthStatus::Pass
            } else {
                AuthStatus::Fail
            },
        ),
{
    lemma_grounded(rooms, pdu, state, pdu.sender);
    lemma_labels();
}

/// Whoever has joined invites third parties who has the power to invite.
pub proof fn law_who_invites_third_parties(
    rooms: Map<Seq<char>, RoomView>,
    pdu: PduView,
    state: StateView,
)
    requires
        grounded(rooms, pdu, state),
        pdu.content is Unknown,
        pdu.content.label() == "m.room.third_party_invite"@,
    ensures
        auth_rules(rooms, pdu, state) == Some(
            if standing(rooms, state, pdu.sender) == Some(Membership::Join) && power(
                rooms,
                state,
                pdu.sender,
            ) >= to_invite(rooms, state) {
                AuthStatus::Pass
            } else {
                AuthStatus::Fail
            },
        ),
{
    lemma_grounded(rooms, pdu, state, pdu.sender);
    lemma_labels();
}

/// Whether a level stays as it is, or neither the old nor the new one is above the sender's.
pub open spec fn within_reach(before: int, after: int, own: int) -> bool {
    before == after || (before <= own && after <= own)
}

/// Whether the entry for a key stays as it is, or neither the old nor the new one is above the sender's.
pub open spec fn entry_within_reach(
    before: Map<Seq<char>, u32>,
    after: Map<Seq<char>, u32>,
    key: Seq<char>,
    own: int,
) -> bool {
    (before.contains_key(key) && after.contains_key(key) && before[key] == after[key]) || ((
    before.contains_key(key) ==> before[key] <= own) && (after.contains_key(key) ==> after[key]
        <= own))
}

/// Whether new power levels change nothing that is above the sender's own, nor the level of another user
/// who has the same level as they.
pub open spec fn modest(
    before: PowerLevelsView,
    after: PowerLevelsView,
    sender: Seq<char>,
    own: int,
) -> bool {
    &&& within_reach(given_or(before.ban, 50), given_or(after.ban, 50), own)
    &&& within_reach(given_or(before.invite, 50), given_or(after.invite, 50), own)
    &&& within_reach(given_or(before.kick, 50), given_or(after.kick, 50), own)
    &&& within_reach(given_or(before.redact, 50), given_or(after.redact, 50), own)
    &&& within_reach(given_or(before.events_default, 0), given_or(after.events_default, 0), own)
    &&& within_reach(given_or(before.state_default, 50), given_or(after.state_default, 50), own)
    &&& within_reach(given_or(before.users_default, 0), given_or(after.users_default, 0), own)
    &&& forall|key: Seq<char>| #[trigger]
        entry_within_reach(before.events, after.events, key, own)
    &&& forall|key: Seq<char>| #[trigger]
        entry_within_reach(before.users, after.users, key, own)
    &&& forall|key: Seq<char>| #[trigger]
        before.users.contains_key(key) && after.users.contains_key(key) && key != sender
            && before.users[key] != after.users[key] ==> before.users[key] != own
}

/// Power levels are changed by who has joined, has the power to send them, and changes nothing above their
/// own. The first power levels event of a room may say anything.
pub proof fn law_who_changes_levels(
    rooms: Map<Seq<char>, RoomView>,
    pdu: PduView,
    state: StateView,
)
    requires
        grounded(rooms, pdu, state),
        pdu.content is PowerLevels,
    ensures
        auth_rules(rooms, pdu, state) == Some(
            if standing(rooms, state, pdu.sender) == Some(Membership::Join) && power(
                rooms,
                state,
                pdu.sender,
            ) >= to_send(rooms, state, "m.room.power_levels"@, pdu.state_key is Some)
                && !for_another(pdu) && (levels_event(rooms, state) matches Some(before) ==> modest(
                before,
                pdu.content->PowerLevels_0,
                pdu.sender,
                power(rooms, state, pdu.sender),
            )) {
                AuthStatus::Pass
            } else {
                AuthStatus::Fail
            },
        ),
{
    lemma_grounded(rooms, pdu, state, pdu.sender);
    lemma_labels();
    if state.map.contains_key(("m.room.power_levels"@, ""@)) {
        let before = levels_event(rooms, state)->0;
        let after = pdu.content->PowerLevels_0;
        let own = before.user_level(pdu.sender);
        lemma_modest_map(before.events, after.events, own);
        lemma_modest_map(before.users, after.users, own);
        assert(crate::validate::auth::spares_equals(before.users, after.users, pdu.sender, own) == (
        forall|key: Seq<char>| #[trigger]
            before.users.contains_key(key) && after.users.contains_key(key) && key != pdu.sender
                && before.users[key] != after.users[key] ==> before.users[key] != own as int)) by {
            if crate::validate::auth::spares_equals(before.users, after.users, pdu.sender, own) {
                assert forall|key: Seq<char>| #[trigger]
                    before.users.contains_key(key) && after.users.contains_key(key) && key
                        != pdu.sender && before.users[key] != after.users[key] implies
                    before.users[key] != own as int by {
                    assert(after.users.contains_key(key));
                }
            }
            if forall|key: Seq<char>| #[trigger]
                before.users.contains_key(key) && after.users.contains_key(key) && key != pdu.sender
                    && before.users[key] != after.users[key] ==> before.users[key] != own as int {
                assert forall|key: Seq<char>| #[trigger]
                    after.users.contains_key(key) && before.users.contains_key(key)
                        && before.users[key] != after.users[key] && key != pdu.sender implies
                    before.users[key] != own by {
                    assert(before.users.contains_key(key));
                }
            }
        }
        assert(crate::validate::auth::may_change_levels(before, after, pdu.sender) == modest(
            before,
            after,
            pdu.sender,
            own as int,
        ));
    }
}

proof fn lemma_modest_map(before: Map<Seq<char>, u32>, after: Map<Seq<char>, u32>, own: u32)
    ensures
        crate::validate::auth::may_change_map(before, after, own) == (forall|key: Seq<char>|
            #[trigger]
            entry_within_reach(before, after, key, own as int)),
{
    if crate::validate::auth::may_change_map(before, after, own) {
        assert forall|key: Seq<char>| #[trigger]
            entry_within_reach(before, after, key, own as int) by {
            assert(after.contains_key(key) || !after.contains_key(key));
            assert(before.contains_key(key) || !before.contains_key(key));
        }
    }
    if forall|key: Seq<char>| #[trigger] entry_within_reach(before, after, key, own as int) {
        assert forall|key: Seq<char>| #[trigger]
            after.contains_key(key) && !crate::validate::auth::unchanged(
                before,
                after,
                key,
            ) implies after[key] <= own && (before.contains_key(key) ==> before[key] <= own) by {
            assert(entry_within_reach(before, after, key, own as int));
        }
        assert forall|key: Seq<char>| #[trigger]
            before.contains_key(key) && !after.contains_key(key) implies before[key] <= own by {
            assert(entry_within_reach(before, after, key, own as int));
        }
    }
}

proof fn lemma_labels()
    ensures
        "m.room.power_levels"@ != "m.room.third_party_invite"@,
        "m.room.power_levels"@ != "m.room.aliases"@,
        "m.room.redaction"@ != "m.room.third_party_invite"@,
        "m.room.redaction"@ != "m.room.aliases"@,
        "m.room.member"@ != "m.room.aliases"@,
        "m.room.third_party_invite"@ != "m.room.aliases"@,
{
    reveal_strlit("m.room.power_levels");
    reveal_strlit("m.room.third_party_invite");
    reveal_strlit("m.room.redaction");
    reveal_strlit("m.room.aliases");
    reveal_strlit("m.room.member");
    assert("m.room.power_levels"@.len() == 19 && "m.room.third_party_invite"@.len() == 25
        && "m.room.redaction"@.len() == 16 && "m.room.aliases"@.len() == 14
        && "m.room.member"@.len() == 13);
}

proof fn lemma_grounded(
    rooms: Map<Seq<char>, RoomView>,
    pdu: PduView,
    state: StateView,
    user: Seq<char>,
)
    requires
        grounded(rooms, pdu, state),
    ensures
        crate::validate::auth::cites_state(rooms, pdu.room_id, pdu.auth_events),
        crate::validate::auth::cites_create(rooms, pdu.room_id, pdu.auth_events),
        crate::validate::auth::levels_in(rooms, state) is Some,
        crate::validate::auth::membership_in(rooms, state, user) == Some(
            standing(rooms, state, user),
        ),
        pdu.content is Member ==> pdu.content.label() != "m.room.aliases"@,
{
    lemma_labels();
    let ids = pdu.auth_events;
    let i = choose|i: int|
        0 <= i < pdu.auth_events.len() && ({
            let cited = find_pdu(rooms, pdu.room_id, #[trigger] pdu.auth_events[i])->0.pdu;
            cited.content.label() == "m.room.create"@ && cited.state_key == Some(""@)
        });
    assert(crate::storage::is_state_of(
        find_pdu(rooms, pdu.room_id, ids[i])->0,
        "m.room.create"@,
        ""@,
    ));
    assert(state.map.contains_key(("m.room.create"@, ""@)));
    assert(find_pdu(
        rooms,
        state.room_id,
        state.map[("m.room.create"@, ""@)],
    ) is Some);
    if state.map.contains_key(("m.room.member"@, user)) {
        assert(named(rooms, state, "m.room.member"@, user) is Some);
    }
    if state.map.contains_key(("m.room.power_levels"@, ""@)) {
        assert(find_pdu(
            rooms,
            state.room_id,
            state.map[("m.room.power_levels"@, ""@)],
        ) is Some);
    }
}

/// An event is checked by the rules, and by nothing else.
pub proof fn law_checked<S: Storage>(
    db: &S,
    pdu: &VersionedPdu,
    state: &State,
    r: Result<Option<AuthStatus>, ErrorKind>,
    s: Result<AuthStatus, ErrorKind>,
)
    requires
        call_ensures(try_auth_check::<S>, (db, pdu, state), r),
        call_ensures(auth_check_v1::<S>, (db, pdu, state), s),
    ensures
        r is Ok ==> r->Ok_0 == auth_rules(db@.rooms, pdu@, state@),
        s is Ok ==> Some(s->Ok_0) == auth_rules(db@.rooms, pdu@, state@),
        db.reliable() ==> r is Ok && s is Ok,
{
}

/// A state event passes the check only if its sender has joined and has the level that is listed for its
/// type, or else the level for state events; any other event, only with the level for such events.
pub proof fn law_checked_power<S: Storage>(
    db: &S,
    pdu: &VersionedPdu,
    state: &State,
    r: Result<Option<AuthStatus>, ErrorKind>,
    levels: PowerLevelsView,
)
    requires
        call_ensures(try_auth_check::<S>, (db, pdu, state), r),
        r is Ok && r->Ok_0 == Some(AuthStatus::Pass),
        !(pdu@.content is Create) && !(pdu@.content is Member),
        pdu@.content.label() != "m.room.third_party_invite"@,
        levels_event(db@.rooms, state@) == Some(levels),
    ensures
        standing(db@.rooms, state@, pdu@.sender) == Some(Membership::Join),
        ({
            let own = if levels.users.contains_key(pdu@.sender) {
                levels.users[pdu@.sender] as int
            } else {
                given_or(levels.users_default, 0)
            };
            &&& levels.events.contains_key(pdu@.content.label()) ==> own
                >= levels.events[pdu@.content.label()]
            &&& !levels.events.contains_key(pdu@.content.label()) && pdu@.state_key is Some ==> own
                >= given_or(levels.state_default, 50)
            &&& !levels.events.contains_key(pdu@.content.label()) && pdu@.state_key is None ==> own
                >= given_or(levels.events_default, 0)
        }),
{
    law_power_to_send(db@.rooms, pdu@, state@);
}

/// Power levels say what they were given, and otherwise what holds by default.
pub proof fn law_levels_read(
    p: &PowerLevels,
    user: &MatrixId,
    ty: &str,
    ban: u32,
    invite: u32,
    kick: u32,
    redact: u32,
    events: u32,
    state: u32,
    users: u32,
    of_user: u32,
    of_state: u32,
    of_other: u32,
)
    requires
        call_ensures(PowerLevels::ban, (p,), ban),
        call_ensures(PowerLevels::invite, (p,), invite),
        call_ensures(PowerLevels::kick, (p,), kick),
        call_ensures(PowerLevels::redact, (p,), redact),
        call_ensures(PowerLevels::events_default, (p,), events),
        call_ensures(PowerLevels::state_default, (p,), state),
        call_ensures(PowerLevels::users_default, (p,), users),
        call_ensures(PowerLevels::get_user_level, (p, user), of_user),
        call_ensures(PowerLevels::get_event_level, (p, ty, true), of_state),
        call_ensures(PowerLevels::get_event_level, (p, ty, false), of_other),
    ensures
        ban == given_or(p.ban, 50),
        invite == given_or(p.invite, 50),
        kick == given_or(p.kick, 50),
        redact == given_or(p.redact, 50),
        events == given_or(p.events_default, 0),
        state == given_or(p.state_default, 50),
        users == given_or(p.users_default, 0),
        of_user == (if p.users@.contains_key(user@) {
            p.users@[user@] as int
        } else {
            given_or(p.users_default, 0)
        }),
        p.events@.contains_key(ty@) ==> of_state == p.events@[ty@] && of_other == p.events@[ty@],
        !p.events@.contains_key(ty@) ==> of_state == given_or(p.state_default, 50) && of_other
            == given_or(p.events_default, 0),
{
}

} // verus!
