//! State resolution.
use crate::dict::{distinct_keys, has_key, lemma_map_of_entry, map_of, Dict, Duplicate, KeySet};
use crate::error::ErrorKind;
use crate::events::pdu::{StoredPdu, StoredView};
use crate::events::room::Membership;
use crate::events::room_version::VersionedPdu;
use crate::events::EventContent;
use crate::state::chain::{events_of, find_auth_difference, ids_of, lemma_found, lemma_ids_finite};
use crate::state::levels::{find_closest, find_mainline};
use crate::state::order::{key_ids, key_views, sort_keys, sorted, SortKey, SortKeyView};
use crate::state::power::{reverse_topological_power_ordering, stored_ids, taken_from};
use crate::state::rules::{
    after_power, agreed, all_found, apply_plain, apply_power, branches_within, cited_state, closest,
    combined, distances_known, first_state, full_conflicted, is_conflicted, is_power_pdu,
    lemma_deeper, lemma_resolved, mainline, names_one, plain_base, plain_events, plain_key,
    plain_keys, power_base, power_events, resolved, resolved_within, rests_on, unconflicted,
};
use crate::state::{empty_state, with_event, State, StateView};
use crate::storage::{db_failed, find_pdu, is_state_of, RoomView, Storage};
use crate::text::{holds, same, texts};
use crate::validate::auth::{try_auth_check, AuthStatus};
use vstd::prelude::*;

verus! {

/// Whether an event decides on the powers of users.
pub fn is_power_event(pdu: &VersionedPdu) -> (r: bool)
    ensures
        r == is_power_pdu(pdu@),
{
    match pdu.event_content() {
        EventContent::PowerLevels(_) | EventContent::JoinRules(_) => true,
        EventContent::Member(member) => {
            let own = match pdu.state_key() {
                Some(key) => same(key, pdu.sender().as_str()),
                None => false,
            };
            (member.membership == Membership::Leave || member.membership == Membership::Ban) && !own
        },
        _ => false,
    }
}

/// The state events on which the authorisation of an event rests, by type and key.
pub fn auth_types_for_event(pdu: &VersionedPdu) -> (keys: KeySet<(String, String)>)
    requires
        pdu@.content is Member ==> pdu@.state_key is Some,
    ensures
        forall|key: (Seq<char>, Seq<char>)| #[trigger]
            keys@.contains(key) == rests_on(pdu@, key),
{
    let mut keys: KeySet<(String, String)> = KeySet::new();
    if same(pdu.event_content().get_type(), "m.room.create") {
        return keys;
    }
    let _a = keys.insert(State::key(("m.room.create", "")));
    let _b = keys.insert(State::key(("m.room.member", pdu.sender().as_str())));
    let _c = keys.insert(State::key(("m.room.power_levels", "")));
    match pdu.event_content() {
        EventContent::Member(member) => {
            let _d = keys.insert(State::key(("m.room.member", pdu.state_key().unwrap())));
            if member.membership == Membership::Join || member.membership == Membership::Invite {
                let _e = keys.insert(State::key(("m.room.join_rules", "")));
            }
        },
        _ => {},
    }
    keys
}

/// The maps of some states.
pub open spec fn state_maps(states: Seq<State>) -> Seq<Map<(Seq<char>, Seq<char>), Seq<char>>> {
    Seq::new(states.len(), |i: int| states[i]@.map)
}

/// Whether every state that has an event for a key has a given one.
fn all_agree(states: &Vec<State>, key: &(String, String), id: &str) -> (r: bool)
    ensures
        r == (forall|j: int|
            0 <= j < states@.len() && (#[trigger] state_maps(states@)[j]).contains_key(key@)
                ==> state_maps(states@)[j][key@] == id@),
{
    let mut j: usize = 0;
    while j < states.len()
        invariant
            j <= states@.len(),
            forall|m: int|
                0 <= m < j && (#[trigger] state_maps(states@)[m]).contains_key(key@) ==> state_maps(
                    states@,
                )[m][key@] == id@,
        decreases states@.len() - j,
    {
        assert(state_maps(states@)[j as int] == states@[j as int].map@);
        match states[j].map.get(key) {
            Some(other) => {
                if !same(other.as_str(), id) {
                    return false;
                }
            },
            None => {},
        }
        j += 1;
    }
    true
}

/// What the states agree on, and the events that they do not agree on.
fn separate(states: &Vec<State>) -> (r: (Dict<(String, String), String>, KeySet<String>))
    ensures
        r.0@ == unconflicted(state_maps(states@)),
        forall|x: Seq<char>| #[trigger]
            r.1@.contains(x) == is_conflicted(state_maps(states@), x),
{
    let ghost maps = state_maps(states@);
    let mut agreed_map: Dict<(String, String), String> = Dict::new();
    let mut conflicted: KeySet<String> = KeySet::new();
    let mut i: usize = 0;
    while i < states.len()
        invariant
            i <= states@.len(),
            maps == state_maps(states@),
            forall|k: (Seq<char>, Seq<char>)| #[trigger]
                agreed_map@.contains_key(k) <==> agreed(maps, k) && exists|j: int|
                    0 <= j < i && (#[trigger] maps[j]).contains_key(k),
            forall|k: (Seq<char>, Seq<char>)| #[trigger]
                agreed_map@.contains_key(k) ==> agreed_map@[k] == unconflicted(maps)[k],
            forall|x: Seq<char>| #[trigger]
                conflicted@.contains(x) <==> exists|j: int, k: (Seq<char>, Seq<char>)|
                    0 <= j < i && (#[trigger] maps[j].contains_key(k)) && maps[j][k] == x
                        && !agreed(maps, k),
        decreases states@.len() - i,
    {
        let ghost before_map = agreed_map@;
        let ghost before_set = conflicted@;
        let ghost listing = states@[i as int].map.listing();
        assert(maps[i as int] == map_of(listing));
        let n: usize = states[i].map.len();
        let mut m: usize = 0;
        while m < n
            invariant
                i < states@.len(),
                m <= n == listing.len(),
                maps == state_maps(states@),
                listing == states@[i as int].map.listing(),
                distinct_keys(listing),
                maps[i as int] == map_of(listing),
                forall|k: (Seq<char>, Seq<char>)| #[trigger]
                    agreed_map@.contains_key(k) <==> before_map.contains_key(k) || (agreed(maps, k)
                        && exists|q: int| 0 <= q < m && (#[trigger] listing[q]).0 == k),
                forall|k: (Seq<char>, Seq<char>)| #[trigger]
                    agreed_map@.contains_key(k) ==> agreed_map@[k] == unconflicted(maps)[k],
                forall|x: Seq<char>| #[trigger]
                    conflicted@.contains(x) <==> before_set.contains(x) || exists|q: int|
                        0 <= q < m && (#[trigger] listing[q]).1 == x && !agreed(
                            maps,
                            listing[q].0,
                        ),
            decreases n - m,
        {
            let ghost now_map = agreed_map@;
            let ghost now_set = conflicted@;
            let e = states[i].map.entry(m);
            let ghost key = listing[m as int].0;
            let ghost id = listing[m as int].1;
            proof {
                lemma_map_of_entry(listing, m as int);
                assert(maps[i as int].contains_key(key) && maps[i as int][key] == id);
            }
            let together = all_agree(states, e.0, e.1.as_str());
            proof {
                lemma_agreed(maps, i as int, key);
                assert(together == agreed(maps, key));
            }
            if together {
                agreed_map.insert(e.0.duplicate(), e.1.clone());
                proof {
                    lemma_unconflicted(maps, i as int, key);
                    assert forall|k: (Seq<char>, Seq<char>)| #[trigger]
                        agreed_map@.contains_key(k) <==> before_map.contains_key(k) || (agreed(
                            maps,
                            k,
                        ) && exists|q: int| 0 <= q < m + 1 && (#[trigger] listing[q]).0 == k) by {
                        assert(agreed_map@.contains_key(k) <==> now_map.contains_key(k) || k
                            == key);
                        if k == key {
                            assert(listing[m as int].0 == k);
                        }
                    }
                    assert forall|x: Seq<char>| #[trigger]
                        conflicted@.contains(x) <==> before_set.contains(x) || exists|q: int|
                            0 <= q < m + 1 && (#[trigger] listing[q]).1 == x && !agreed(
                                maps,
                                listing[q].0,
                            ) by {}
                }
            } else {
                let _new = conflicted.insert(e.1.clone());
                proof {
                    assert forall|x: Seq<char>| #[trigger]
                        conflicted@.contains(x) <==> before_set.contains(x) || exists|q: int|
                            0 <= q < m + 1 && (#[trigger] listing[q]).1 == x && !agreed(
                                maps,
                                listing[q].0,
                            ) by {
                        assert(conflicted@.contains(x) <==> now_set.contains(x) || x == id);
                        if x == id {
                            assert(listing[m as int].1 == x);
                        }
                    }
                }
            }
            m += 1;
        }
        proof {
            assert forall|k: (Seq<char>, Seq<char>)| #[trigger]
                agreed_map@.contains_key(k) <==> agreed(maps, k) && exists|j: int|
                    0 <= j < i + 1 && (#[trigger] maps[j]).contains_key(k) by {
                if maps[i as int].contains_key(k) {
                    assert(has_key(listing, k));
                    let q = choose|q: int| 0 <= q < listing.len() && (#[trigger] listing[q]).0 == k;
                    assert(listing[q].0 == k);
                }
                if exists|q: int| 0 <= q < n && (#[trigger] listing[q]).0 == k {
                    let q = choose|q: int| 0 <= q < n && (#[trigger] listing[q]).0 == k;
                    lemma_map_of_entry(listing, q);
                    assert(maps[i as int].contains_key(k));
                }
            }
            assert forall|x: Seq<char>| #[trigger] conflicted@.contains(x) <==> exists|
                j: int,
                k: (Seq<char>, Seq<char>),
            |
                0 <= j < i + 1 && (#[trigger] maps[j].contains_key(k)) && maps[j][k] == x
                    && !agreed(maps, k) by {
                if conflicted@.contains(x) && !before_set.contains(x) {
                    let q = choose|q: int|
                        0 <= q < n && (#[trigger] listing[q]).1 == x && !agreed(
                            maps,
                            listing[q].0,
                        );
                    lemma_map_of_entry(listing, q);
                    assert(maps[i as int].contains_key(listing[q].0));
                }
                if exists|j: int, k: (Seq<char>, Seq<char>)|
                    0 <= j < i + 1 && (#[trigger] maps[j].contains_key(k)) && maps[j][k] == x
                        && !agreed(maps, k) {
                    let (j, k) = choose|j: int, k: (Seq<char>, Seq<char>)|
                        0 <= j < i + 1 && (#[trigger] maps[j].contains_key(k)) && maps[j][k] == x
                            && !agreed(maps, k);
                    if j == i {
                        assert(has_key(listing, k));
                        let q = choose|q: int|
                            0 <= q < listing.len() && (#[trigger] listing[q]).0 == k;
                        lemma_map_of_entry(listing, q);
                        assert(listing[q].1 == x && !agreed(maps, listing[q].0));
                    } else {
                        assert(maps[j].contains_key(k));
                        assert(before_set.contains(x));
                    }
                }
            }
        }
        i += 1;
    }
    proof {
        assert(agreed_map@ =~= unconflicted(maps));
    }
    (agreed_map, conflicted)
}

proof fn lemma_agreed(
    maps: Seq<Map<(Seq<char>, Seq<char>), Seq<char>>>,
    i: int,
    key: (Seq<char>, Seq<char>),
)
    requires
        0 <= i < maps.len(),
        maps[i].contains_key(key),
    ensures
        agreed(maps, key) == (forall|j: int|
            0 <= j < maps.len() && (#[trigger] maps[j]).contains_key(key) ==> maps[j][key]
                == maps[i][key]),
{
}

proof fn lemma_unconflicted(
    maps: Seq<Map<(Seq<char>, Seq<char>), Seq<char>>>,
    i: int,
    key: (Seq<char>, Seq<char>),
)
    requires
        0 <= i < maps.len(),
        maps[i].contains_key(key),
        agreed(maps, key),
    ensures
        unconflicted(maps).contains_key(key),
        unconflicted(maps)[key] == maps[i][key],
{
    let j = choose|j: int| 0 <= j < maps.len() && (#[trigger] maps[j]).contains_key(key);
    assert(maps[j].contains_key(key));
}

/// The state made of those cited events that were allowed; `None` where it is broken.
fn find_cited_state<S: Storage>(db: &S, room_id: &str, ids: &Vec<String>) -> (r: Result<
    Option<State>,
    ErrorKind,
>)
    ensures
        match r {
            Ok(Some(state)) => cited_state(
                db@.rooms,
                room_id@,
                texts(ids@),
                empty_state(room_id@),
            ) == Some(state@),
            Ok(None) => cited_state(
                db@.rooms,
                room_id@,
                texts(ids@),
                empty_state(room_id@),
            ) is None,
            Err(_) => db_failed(r) && !db.reliable(),
        },
{
    let ghost all = texts(ids@);
    let mut state = State::new(room_id);
    let ghost start = cited_state(db@.rooms, room_id@, all, empty_state(room_id@));
    let mut i: usize = 0;
    assert(all.skip(0) =~= all);
    while i < ids.len()
        invariant
            i <= ids@.len(),
            all == texts(ids@),
            start == cited_state(db@.rooms, room_id@, all, empty_state(room_id@)),
            start == cited_state(db@.rooms, room_id@, all.skip(i as int), state@),
        decreases ids@.len() - i,
    {
        proof {
            assert(all.skip(i as int)[0] == ids@[i as int]@);
            assert(all.skip(i as int).drop_first() =~= all.skip(i + 1));
        }
        match db.get_pdu(room_id, ids[i].as_str()) {
            Ok(Some(event)) => {
                if event.did_pass_auth() {
                    if event.state_key().is_none() {
                        return Ok(None);
                    }
                    state.insert_event(&event);
                }
            },
            Ok(None) => return Ok(None),
            Err(e) => return Err(e),
        }
        i += 1;
    }
    assert(all.skip(i as int).len() == 0);
    Ok(Some(state))
}

/// Puts the events that decide on the powers of users into the state one after the other; `None`
/// where one of them cannot be held against the rules.
fn apply_power_events<S: Storage>(
    db: &S,
    room_id: &str,
    base: Dict<(String, String), String>,
    order: &Vec<String>,
) -> (r: Result<Option<Dict<(String, String), String>>, ErrorKind>)
    ensures
        match r {
            Ok(Some(map)) => apply_power(db@.rooms, room_id@, base@, texts(order@)) == Some(map@),
            Ok(None) => apply_power(db@.rooms, room_id@, base@, texts(order@)) is None,
            Err(_) => db_failed(r) && !db.reliable(),
        },
{
    let ghost all = texts(order@);
    let ghost start = apply_power(db@.rooms, room_id@, base@, all);
    let mut partial = base;
    let mut i: usize = 0;
    assert(all.skip(0) =~= all);
    while i < order.len()
        invariant
            i <= order@.len(),
            all == texts(order@),
            start == apply_power(db@.rooms, room_id@, base@, all),
            start == apply_power(db@.rooms, room_id@, partial@, all.skip(i as int)),
        decreases order@.len() - i,
    {
        proof {
            assert(all.skip(i as int)[0] == order@[i as int]@);
            assert(all.skip(i as int).drop_first() =~= all.skip(i + 1));
        }
        let event = match db.get_pdu(room_id, order[i].as_str()) {
            Ok(Some(event)) => event,
            Ok(None) => return Ok(None),
            Err(e) => return Err(e),
        };
        match event.state_key() {
            Some(state_key) => {
                let mut frankenstate = match find_cited_state(db, room_id, event.auth_events()) {
                    Ok(Some(state)) => state,
                    Ok(None) => return Ok(None),
                    Err(e) => return Err(e),
                };
                let ghost cited = frankenstate@;
                frankenstate.map.insert_all(&partial);
                assert(frankenstate@ == power_base(cited, partial@));
                match try_auth_check(db, event.inner(), &frankenstate) {
                    Ok(Some(_)) => {},
                    Ok(None) => return Ok(None),
                    Err(e) => return Err(e),
                }
                let key = State::key((event.event_content().get_type(), state_key));
                partial.insert(key, order[i].clone());
            },
            None => {},
        }
        i += 1;
    }
    assert(all.skip(i as int).len() == 0);
    Ok(Some(partial))
}

/// The first of some events that is the state event of a type with a key.
fn find_first_state<S: Storage>(
    db: &S,
    room_id: &str,
    ids: &Vec<String>,
    key: &(String, String),
) -> (r: Result<Option<StoredPdu>, ErrorKind>)
    ensures
        match r {
            Ok(Some(e)) => first_state(db@.rooms, room_id@, texts(ids@), key@) == Some(e@.id())
                && is_state_of(e@, key@.0, key@.1),
            Ok(None) => first_state(db@.rooms, room_id@, texts(ids@), key@) is None,
            Err(_) => db_failed(r) && !db.reliable(),
        },
{
    let ghost all = texts(ids@);
    let ghost start = first_state(db@.rooms, room_id@, all, key@);
    let mut i: usize = 0;
    assert(all.skip(0) =~= all);
    while i < ids.len()
        invariant
            i <= ids@.len(),
            all == texts(ids@),
            start == first_state(db@.rooms, room_id@, all, key@),
            start == first_state(db@.rooms, room_id@, all.skip(i as int), key@),
        decreases ids@.len() - i,
    {
        proof {
            assert(all.skip(i as int)[0] == ids@[i as int]@);
            assert(all.skip(i as int).drop_first() =~= all.skip(i + 1));
        }
        match db.get_pdu(room_id, ids[i].as_str()) {
            Ok(Some(event)) => {
                let fits = match event.state_key() {
                    Some(k) => same(k, key.1.as_str()) && same(
                        event.event_content().get_type(),
                        key.0.as_str(),
                    ),
                    None => false,
                };
                if fits {
                    proof {
                        lemma_found(db@.rooms, room_id@, ids@[i as int]@);
                    }
                    return Ok(Some(event));
                }
            },
            Ok(None) => {},
            Err(e) => return Err(e),
        }
        i += 1;
    }
    assert(all.skip(i as int).len() == 0);
    Ok(None)
}

/// The state against which an event is held: for auth checking, events from the state are
/// preferred, and the events that it cites stand in for what is missing there.
fn find_plain_base<S: Storage>(db: &S, state: &State, event: &StoredPdu) -> (r: Result<
    State,
    ErrorKind,
>)
    requires
        event@.pdu.state_key is Some,
    ensures
        match r {
            Ok(base) => base@ == plain_base(db@.rooms, state@, event@.pdu),
            Err(_) => db_failed(r) && !db.reliable(),
        },
{
    let ghost rooms = db@.rooms;
    let ghost pdu = event@.pdu;
    let keys = auth_types_for_event(event.inner());
    let ghost listing = keys.listing();
    let mut base = state.duplicate();
    let n: usize = keys.len();
    let mut i: usize = 0;
    while i < n
        invariant
            i <= n == listing.len(),
            rooms == db@.rooms,
            pdu == event@.pdu,
            listing == keys.listing(),
            listing.no_duplicates(),
            base@.room_id == state@.room_id,
            forall|k: (Seq<char>, Seq<char>)| #[trigger]
                base@.map.contains_key(k) <==> state@.map.contains_key(k) || ((exists|j: int|
                    0 <= j < i && #[trigger] listing[j] == k) && first_state(
                    rooms,
                    state@.room_id,
                    pdu.auth_events,
                    k,
                ) is Some),
            forall|k: (Seq<char>, Seq<char>)| #[trigger]
                base@.map.contains_key(k) ==> base@.map[k] == (if state@.map.contains_key(k) {
                    state@.map[k]
                } else {
                    first_state(rooms, state@.room_id, pdu.auth_events, k)->0
                }),
        decreases n - i,
    {
        let ghost now = base@.map;
        let key = keys.item(i);
        let ghost k0 = listing[i as int];
        if !base.map.contains(key) {
            match find_first_state(db, state.room_id.as_str(), event.auth_events(), key) {
                Ok(Some(found)) => {
                    base.insert_event(&found);
                    proof {
                        assert((found@.pdu.content.label(), found@.pdu.state_key->0) == k0);
                    }
                },
                Ok(None) => {},
                Err(e) => return Err(e),
            }
        }
        proof {
            assert forall|k: (Seq<char>, Seq<char>)| #[trigger]
                base@.map.contains_key(k) <==> state@.map.contains_key(k) || ((exists|j: int|
                    0 <= j < i + 1 && #[trigger] listing[j] == k) && first_state(
                    rooms,
                    state@.room_id,
                    pdu.auth_events,
                    k,
                ) is Some) by {
                if k == k0 {
                    assert(listing[i as int] == k);
                } else {
                    assert(base@.map.contains_key(k) == now.contains_key(k));
                }
            }
        }
        i += 1;
    }
    proof {
        assert forall|k: (Seq<char>, Seq<char>)| #[trigger] rests_on(pdu, k) == (exists|j: int|
            0 <= j < n && #[trigger] listing[j] == k) by {
            assert(keys@.contains(k) == rests_on(pdu, k));
            assert(keys@.contains(k) == listing.contains(k));
            if listing.contains(k) {
                let j = choose|j: int| 0 <= j < listing.len() && listing[j] == k;
                assert(listing[j] == k);
            }
        }
        assert(base@.map =~= plain_base(rooms, state@, pdu).map);
    }
    Ok(base)
}

/// Puts state events into the state one after the other, each where the rules allow it; `None` where
/// one of them cannot be held against the rules.
pub fn iterative_auth_checks<S: Storage>(db: &S, state: State, order: &Vec<String>) -> (r: Result<
    Option<State>,
    ErrorKind,
>)
    requires
        forall|i: int|
            0 <= i < order@.len() ==> find_pdu(
                db@.rooms,
                state@.room_id,
                #[trigger] texts(order@)[i],
            ) is Some,
    ensures
        match r {
            Ok(Some(s)) => apply_plain(db@.rooms, state@, texts(order@)) == Some(s@),
            Ok(None) => apply_plain(db@.rooms, state@, texts(order@)) is None,
            Err(_) => db_failed(r) && !db.reliable(),
        },
{
    let ghost all = texts(order@);
    let ghost start = apply_plain(db@.rooms, state@, all);
    let ghost room = state@.room_id;
    let mut current = state;
    let mut i: usize = 0;
    assert(all.skip(0) =~= all);
    while i < order.len()
        invariant
            i <= order@.len(),
            all == texts(order@),
            room == state@.room_id,
            current@.room_id == room,
            start == apply_plain(db@.rooms, state@, all),
            start == apply_plain(db@.rooms, current@, all.skip(i as int)),
            forall|i: int|
                0 <= i < order@.len() ==> find_pdu(db@.rooms, room, #[trigger] texts(order@)[i])
                    is Some,
        decreases order@.len() - i,
    {
        proof {
            assert(all.skip(i as int)[0] == order@[i as int]@);
            assert(all.skip(i as int).drop_first() =~= all.skip(i + 1));
            assert(find_pdu(db@.rooms, room, texts(order@)[i as int]) is Some);
        }
        let event = match db.get_pdu(current.room_id.as_str(), order[i].as_str()) {
            Ok(Some(event)) => event,
            Ok(None) => return Ok(None),
            Err(e) => return Err(e),
        };
        if event.state_key().is_some() {
            let frankenstate = match find_plain_base(db, &current, &event) {
                Ok(base) => base,
                Err(e) => return Err(e),
            };
            // if it passes auth now, we can add it to the state
            match try_auth_check(db, event.inner(), &frankenstate) {
                Ok(Some(AuthStatus::Pass)) => current.insert_event(&event),
                Ok(Some(AuthStatus::Fail)) => {},
                Ok(None) => return Ok(None),
                Err(e) => return Err(e),
            }
        }
        i += 1;
    }
    assert(all.skip(i as int).len() == 0);
    Ok(Some(current))
}

/// Fetches events and parts those that decide on the powers of users from the others; `None` where
/// one of them is missing.
fn part_events<S: Storage>(db: &S, room_id: &str, ids: &KeySet<String>) -> (r: Result<
    Option<(Vec<StoredPdu>, Vec<StoredPdu>)>,
    ErrorKind,
>)
    ensures
        match r {
            Ok(Some((power, plain))) => {
                &&& all_found(db@.rooms, room_id@, ids@)
                &&& taken_from(db@.rooms, room_id@, power@)
                &&& taken_from(db@.rooms, room_id@, plain@)
                &&& stored_ids(power@).to_set() == power_events(db@.rooms, room_id@, ids@)
                &&& stored_ids(plain@).to_set() == plain_events(db@.rooms, room_id@, ids@)
            },
            Ok(None) => !all_found(db@.rooms, room_id@, ids@),
            Err(_) => db_failed(r) && !db.reliable(),
        },
{
    let ghost rooms = db@.rooms;
    let ghost room = room_id@;
    let ghost listing = ids.listing();
    let mut power: Vec<StoredPdu> = Vec::new();
    let mut plain: Vec<StoredPdu> = Vec::new();
    let n: usize = ids.len();
    let mut i: usize = 0;
    while i < n
        invariant
            i <= n == listing.len(),
            rooms == db@.rooms,
            room == room_id@,
            listing == ids.listing(),
            listing.no_duplicates(),
            taken_from(rooms, room, power@),
            taken_from(rooms, room, plain@),
            forall|j: int|
                0 <= j < i ==> find_pdu(rooms, room, #[trigger] listing[j]) is Some,
            forall|x: Seq<char>| #[trigger]
                stored_ids(power@).contains(x) <==> exists|j: int|
                    0 <= j < i && #[trigger] listing[j] == x && is_power_pdu(
                        find_pdu(rooms, room, x)->0.pdu,
                    ),
            forall|x: Seq<char>| #[trigger]
                stored_ids(plain@).contains(x) <==> exists|j: int|
                    0 <= j < i && #[trigger] listing[j] == x && !is_power_pdu(
                        find_pdu(rooms, room, x)->0.pdu,
                    ),
        decreases n - i,
    {
        let id = ids.item(i);
        let ghost x = listing[i as int];
        let event = match db.get_pdu(room_id, id.as_str()) {
            Ok(Some(event)) => event,
            Ok(None) => {
                assert(ids@.contains(x));
                return Ok(None);
            },
            Err(e) => return Err(e),
        };
        let is_power = is_power_event(event.inner());
        let ghost old_power = stored_ids(power@);
        let ghost old_plain = stored_ids(plain@);
        proof {
            lemma_found(rooms, room, x);
            assert(!old_power.contains(x)) by {
                if old_power.contains(x) {
                    let j = choose|j: int|
                        0 <= j < i && #[trigger] listing[j] == x && is_power_pdu(
                            find_pdu(rooms, room, x)->0.pdu,
                        );
                    assert(listing[j] == listing[i as int]);
                }
            }
            assert(!old_plain.contains(x)) by {
                if old_plain.contains(x) {
                    let j = choose|j: int|
                        0 <= j < i && #[trigger] listing[j] == x && !is_power_pdu(
                            find_pdu(rooms, room, x)->0.pdu,
                        );
                    assert(listing[j] == listing[i as int]);
                }
            }
        }
        if is_power {
            let ghost before = power@;
            let ghost e = event@;
            power.push(event);
            proof {
                lemma_taken_push(rooms, room, before, power@, e);
                assert forall|y: Seq<char>| #[trigger]
                    stored_ids(power@).contains(y) <==> exists|j: int|
                        0 <= j < i + 1 && #[trigger] listing[j] == y && is_power_pdu(
                            find_pdu(rooms, room, y)->0.pdu,
                        ) by {
                    assert(stored_ids(power@).contains(y) <==> old_power.contains(y) || y == x);
                }
                assert forall|y: Seq<char>| #[trigger]
                    stored_ids(plain@).contains(y) <==> exists|j: int|
                        0 <= j < i + 1 && #[trigger] listing[j] == y && !is_power_pdu(
                            find_pdu(rooms, room, y)->0.pdu,
                        ) by {}
            }
        } else {
            let ghost before = plain@;
            let ghost e = event@;
            plain.push(event);
            proof {
                lemma_taken_push(rooms, room, before, plain@, e);
                assert forall|y: Seq<char>| #[trigger]
                    stored_ids(plain@).contains(y) <==> exists|j: int|
                        0 <= j < i + 1 && #[trigger] listing[j] == y && !is_power_pdu(
                            find_pdu(rooms, room, y)->0.pdu,
                        ) by {
                    assert(stored_ids(plain@).contains(y) <==> old_plain.contains(y) || y == x);
                }
                assert forall|y: Seq<char>| #[trigger]
                    stored_ids(power@).contains(y) <==> exists|j: int|
                        0 <= j < i + 1 && #[trigger] listing[j] == y && is_power_pdu(
                            find_pdu(rooms, room, y)->0.pdu,
                        ) by {}
            }
        }
        i += 1;
    }
    proof {
        assert forall|x: Seq<char>| ids@.contains(x) == (exists|j: int|
            0 <= j < n && #[trigger] listing[j] == x) by {
            if listing.contains(x) {
                let j = choose|j: int| 0 <= j < listing.len() && listing[j] == x;
                assert(listing[j] == x);
            }
        }
        assert forall|x: Seq<char>| #[trigger] ids@.contains(x) implies find_pdu(
            rooms,
            room,
            x,
        ) is Some by {
            let j = choose|j: int| 0 <= j < n && #[trigger] listing[j] == x;
            assert(find_pdu(rooms, room, listing[j]) is Some);
        }
        assert(stored_ids(power@).to_set() =~= power_events(rooms, room, ids@));
        assert(stored_ids(plain@).to_set() =~= plain_events(rooms, room, ids@));
    }
    Ok(Some((power, plain)))
}

proof fn lemma_taken_push(
    rooms: Map<Seq<char>, RoomView>,
    room: Seq<char>,
    before: Seq<StoredPdu>,
    after: Seq<StoredPdu>,
    e: StoredView,
)
    requires
        taken_from(rooms, room, before),
        after.len() == before.len() + 1,
        forall|j: int| 0 <= j < before.len() ==> after[j] == #[trigger] before[j],
        after[before.len() as int]@ == e,
        find_pdu(rooms, room, e.id()) == Some(e),
        !stored_ids(before).contains(e.id()),
    ensures
        taken_from(rooms, room, after),
        forall|y: Seq<char>| #[trigger]
            stored_ids(after).contains(y) <==> stored_ids(before).contains(y) || y == e.id(),
{
    let old_ids = stored_ids(before);
    let new_ids = stored_ids(after);
    assert forall|j: int| 0 <= j < before.len() implies new_ids[j] == #[trigger] old_ids[j] by {
        assert(after[j] == before[j]);
    }
    assert(new_ids[before.len() as int] == e.id());
    assert forall|y: Seq<char>| #[trigger] new_ids.contains(y) <==> old_ids.contains(y) || y
        == e.id() by {
        if old_ids.contains(y) {
            let j = choose|j: int| 0 <= j < old_ids.len() && old_ids[j] == y;
            assert(new_ids[j] == y);
        }
        if new_ids.contains(y) && y != e.id() {
            let j = choose|j: int| 0 <= j < new_ids.len() && new_ids[j] == y;
            assert(old_ids[j] == y);
        }
    }
    assert(new_ids.no_duplicates()) by {
        assert forall|a: int, b: int|
            0 <= a < new_ids.len() && 0 <= b < new_ids.len() && a != b implies new_ids[a]
            != new_ids[b] by {
            if a < before.len() {
                assert(new_ids[a] == old_ids[a]);
            }
            if b < before.len() {
                assert(new_ids[b] == old_ids[b]);
            }
        }
    }
    assert forall|j: int| 0 <= j < after.len() implies find_pdu(
        rooms,
        room,
        (#[trigger] after[j])@.id(),
    ) == Some(after[j]@) by {
        if j < before.len() {
            assert(after[j] == before[j]);
        }
    }
}

/// The events that decide nothing on the powers of users in the order in which they are looked at;
/// `None` where one of them has no distance from the mainline.
fn order_plain<S: Storage>(
    db: &S,
    room_id: &str,
    line: &Vec<String>,
    plain: &Vec<StoredPdu>,
) -> (r: Result<Option<Vec<String>>, ErrorKind>)
    requires
        taken_from(db@.rooms, room_id@, plain@),
    ensures
        match r {
            Ok(Some(order)) => {
                let ids = stored_ids(plain@).to_set();
                &&& distances_known(db@.rooms, room_id@, texts(line@), ids)
                &&& texts(order@) == key_ids(
                    sorted(plain_keys(db@.rooms, room_id@, texts(line@), ids)),
                )
                &&& forall|i: int|
                    0 <= i < order@.len() ==> find_pdu(
                        db@.rooms,
                        room_id@,
                        #[trigger] texts(order@)[i],
                    ) is Some
            },
            Ok(None) => !distances_known(
                db@.rooms,
                room_id@,
                texts(line@),
                stored_ids(plain@).to_set(),
            ),
            Err(_) => db_failed(r) && !db.reliable(),
        },
{
    let ghost rooms = db@.rooms;
    let ghost room = room_id@;
    let ghost ml = texts(line@);
    let ghost ids = stored_ids(plain@);
    let mut keys: Vec<SortKey> = Vec::new();
    let mut i: usize = 0;
    while i < plain.len()
        invariant
            i <= plain@.len(),
            rooms == db@.rooms,
            room == room_id@,
            ml == texts(line@),
            ids == stored_ids(plain@),
            taken_from(rooms, room, plain@),
            keys@.len() == i,
            forall|j: int|
                0 <= j < i ==> closest(rooms, room, ml, #[trigger] ids[j]) is Some,
            forall|j: int|
                0 <= j < i ==> (#[trigger] keys@[j])@ == plain_key(rooms, room, ml, ids[j]),
        decreases plain@.len() - i,
    {
        let pdu = &plain[i];
        proof {
            assert(ids[i as int] == pdu@.id());
            assert(find_pdu(rooms, room, plain@[i as int]@.id()) == Some(plain@[i as int]@));
        }
        let found = match find_closest(db, room_id, line, pdu.event_id()) {
            Ok(Some(found)) => found,
            Ok(None) => {
                assert(ids.to_set().contains(ids[i as int]));
                return Ok(None);
            },
            Err(e) => return Err(e),
        };
        // list is sorted backwards
        let rank: usize = match found {
            Some(position) => usize::MAX - position,
            None => 0,
        };
        keys.push(
            SortKey { rank, ts: pdu.origin_server_ts(), id: pdu.event_id().to_owned() },
        );
        i += 1;
    }
    proof {
        assert forall|a: int, b: int| 0 <= a < b < keys@.len() implies (#[trigger] keys@[a]).id@
            != (#[trigger] keys@[b]).id@ by {
            assert(keys@[a]@.id == ids[a] && keys@[b]@.id == ids[b]);
        }
        let views = key_views(keys@);
        let wanted = plain_keys(rooms, room, ml, ids.to_set());
        assert forall|x: Seq<char>| #[trigger] ids.to_set().contains(x) implies closest(
            rooms,
            room,
            ml,
            x,
        ) is Some by {
            let j = choose|j: int| 0 <= j < ids.len() && ids[j] == x;
            assert(closest(rooms, room, ml, ids[j]) is Some);
        }
        assert forall|k: SortKeyView| views.to_set().contains(k) == wanted.contains(k) by {
            if views.contains(k) {
                let j = choose|j: int| 0 <= j < views.len() && views[j] == k;
                assert(keys@[j]@ == k);
                assert(ids.contains(ids[j]));
            }
            if wanted.contains(k) {
                let j = choose|j: int| 0 <= j < ids.len() && ids[j] == k.id;
                assert(keys@[j]@ == plain_key(rooms, room, ml, ids[j]));
                assert(views[j] == k);
            }
        }
        assert(views.to_set() =~= wanted);
    }
    let sorted_keys = sort_keys(keys);
    let ghost wanted = plain_keys(rooms, room, ml, ids.to_set());
    let mut order: Vec<String> = Vec::new();
    let mut k: usize = 0;
    while k < sorted_keys.len()
        invariant
            k <= sorted_keys@.len(),
            order@.len() == k,
            forall|j: int| 0 <= j < k ==> (#[trigger] order@[j])@ == sorted_keys@[j].id@,
        decreases sorted_keys@.len() - k,
    {
        order.push(sorted_keys[k].id.clone());
        k += 1;
    }
    proof {
        assert(texts(order@) =~= key_ids(key_views(sorted_keys@)));
        assert forall|j: int| 0 <= j < order@.len() implies find_pdu(
            rooms,
            room,
            #[trigger] texts(order@)[j],
        ) is Some by {
            let k = key_views(sorted_keys@)[j];
            assert(key_views(sorted_keys@).to_set().contains(k));
            assert(wanted.contains(k));
            let m = choose|m: int| 0 <= m < ids.len() && ids[m] == k.id;
            assert(find_pdu(rooms, room, plain@[m]@.id()) == Some(plain@[m]@));
        }
    }
    Ok(Some(order))
}

/// Resolves several events, each with a state after it, into one state; `None` where an event that
/// it rests on is missing or of the wrong kind, or where events cite one another in a circle.
fn combine<S: Storage>(db: &S, room_id: &str, events: &Vec<String>, states: &Vec<State>) -> (r:
    Result<Option<State>, ErrorKind>)
    ensures
        match r {
            Ok(Some(state)) => combined(
                db@.rooms,
                room_id@,
                texts(events@),
                state_maps(states@),
            ) == Some(state@),
            Ok(None) => combined(
                db@.rooms,
                room_id@,
                texts(events@),
                state_maps(states@),
            ) is None,
            Err(_) => db_failed(r) && !db.reliable(),
        },
{
    let ghost rooms = db@.rooms;
    let ghost room = room_id@;
    let ghost ids = texts(events@);
    let ghost maps = state_maps(states@);
    proof {
        reveal(combined);
    }
    // STEP 1
    let (unconflicted_state_map, conflicted_state_set) = separate(states);
    let difference = match find_auth_difference(db, room_id, events) {
        Ok(Some(difference)) => difference,
        Ok(None) => return Ok(None),
        Err(e) => return Err(e),
    };
    let mut full_conflicted_set = conflicted_state_set;
    let n: usize = difference.len();
    let ghost listing = difference.listing();
    let ghost base = full_conflicted_set@;
    let mut i: usize = 0;
    while i < n
        invariant
            i <= n == listing.len(),
            listing == difference.listing(),
            forall|x: Seq<char>| #[trigger]
                full_conflicted_set@.contains(x) <==> base.contains(x) || exists|j: int|
                    0 <= j < i && #[trigger] listing[j] == x,
        decreases n - i,
    {
        let ghost now = full_conflicted_set@;
        let _new = full_conflicted_set.insert(difference.item(i).clone());
        proof {
            assert forall|x: Seq<char>| #[trigger]
                full_conflicted_set@.contains(x) <==> base.contains(x) || exists|j: int|
                    0 <= j < i + 1 && #[trigger] listing[j] == x by {
                assert(full_conflicted_set@.contains(x) <==> now.contains(x) || x
                    == listing[i as int]);
            }
        }
        i += 1;
    }
    let ghost conflicted = full_conflicted(rooms, room, ids, maps);
    proof {
        assert forall|x: Seq<char>| full_conflicted_set@.contains(x) == conflicted.contains(x) by {
            assert(difference@.contains(x) == listing.contains(x));
            assert(base.contains(x) == is_conflicted(maps, x));
            if listing.contains(x) {
                let j = choose|j: int| 0 <= j < listing.len() && listing[j] == x;
                assert(listing[j] == x);
            }
        }
        assert(full_conflicted_set@ =~= conflicted);
    }
    // The specification of state resolution also takes all the events from these events' auth
    // chains that are in the full conflicted set; other servers do nothing special for them.
    let (power, plain) = match part_events(db, room_id, &full_conflicted_set) {
        Ok(Some(parts)) => parts,
        Ok(None) => return Ok(None),
        Err(e) => return Err(e),
    };
    let events_list = match reverse_topological_power_ordering(db, room_id, power) {
        Ok(Some(order)) => order,
        Ok(None) => return Ok(None),
        Err(e) => return Err(e),
    };
    // STEP 2
    let partial = match apply_power_events(
        db,
        room_id,
        unconflicted_state_map.duplicate(),
        &events_list,
    ) {
        Ok(Some(map)) => map,
        Ok(None) => return Ok(None),
        Err(e) => return Err(e),
    };
    // STEP 3
    let line = match partial.get(&State::key(("m.room.power_levels", ""))) {
        Some(start) => match find_mainline(db, room_id, start.as_str()) {
            Ok(Some(line)) => line,
            Ok(None) => return Ok(None),
            Err(e) => return Err(e),
        },
        None => return Ok(None),
    };
    let order = match order_plain(db, room_id, &line, &plain) {
        Ok(Some(order)) => order,
        Ok(None) => return Ok(None),
        Err(e) => return Err(e),
    };
    // STEP 4
    let partially_resolved = State { room_id: room_id.to_owned(), map: partial };
    let mut state = match iterative_auth_checks(db, partially_resolved, &order) {
        Ok(Some(state)) => state,
        Ok(None) => return Ok(None),
        Err(e) => return Err(e),
    };
    // STEP 5
    state.map.insert_all(&unconflicted_state_map);
    Ok(Some(state))
}

/// Finds the state after events, and remembers the states after single ones.
pub struct StateResolver {
    /// event_id -> state after that event
    cache: Dict<String, State>,
}

impl StateResolver {
    /// What is remembered.
    pub closed spec fn remembered(&self) -> Map<Seq<char>, StateView> {
        self.cache@
    }

    /// Whether all that is remembered still holds.
    pub open spec fn valid(&self, rooms: Map<Seq<char>, RoomView>) -> bool {
        forall|id: Seq<char>| #[trigger]
            self.remembered().contains_key(id) ==> resolved(
                rooms,
                self.remembered()[id].room_id,
                seq![id],
            ) == Some(self.remembered()[id])
    }

    /// A resolver that remembers nothing.
    pub fn new() -> (r: Self)
        ensures
            r.remembered() == Map::<Seq<char>, StateView>::empty(),
            forall|rooms: Map<Seq<char>, RoomView>| #[trigger] r.valid(rooms),
    {
        StateResolver { cache: Dict::new() }
    }

    /// Forgets everything.
    pub fn forget(&mut self)
        ensures
            final(self).remembered() == Map::<Seq<char>, StateView>::empty(),
            forall|rooms: Map<Seq<char>, RoomView>| #[trigger] final(self).valid(rooms),
    {
        self.cache = Dict::new();
    }

    /// The state after some events; `None` where an event that it rests on is missing or of the
    /// wrong kind, or where events follow one another in a circle.
    pub fn try_resolve<S: Storage>(&mut self, db: &S, room_id: &str, events: &Vec<String>) -> (r:
        Result<Option<State>, ErrorKind>)
        requires
            old(self).valid(db@.rooms),
        ensures
            final(self).valid(db@.rooms),
            match r {
                Ok(Some(state)) => resolved(db@.rooms, room_id@, texts(events@)) == Some(state@),
                Ok(None) => resolved(db@.rooms, room_id@, texts(events@)) is None,
                Err(_) => db_failed(r) && !db.reliable(),
            },
    {
        let mut path: Vec<String> = Vec::new();
        self.resolve_along(db, room_id, events, &mut path)
    }

    /// The state after some events.
    pub fn resolve<S: Storage>(&mut self, db: &S, room_id: &str, events: &Vec<String>) -> (r:
        Result<State, ErrorKind>)
        requires
            old(self).valid(db@.rooms),
            resolved(db@.rooms, room_id@, texts(events@)) is Some,
        ensures
            final(self).valid(db@.rooms),
            match r {
                Ok(state) => resolved(db@.rooms, room_id@, texts(events@)) == Some(state@),
                Err(_) => db_failed(r) && !db.reliable(),
            },
    {
        self.resolve_v2(db, room_id, events)
    }

    /// The state after some events, by the second version of the algorithm.
    pub fn resolve_v2<S: Storage>(&mut self, db: &S, room_id: &str, events: &Vec<String>) -> (r:
        Result<State, ErrorKind>)
        requires
            old(self).valid(db@.rooms),
            resolved(db@.rooms, room_id@, texts(events@)) is Some,
        ensures
            final(self).valid(db@.rooms),
            match r {
                Ok(state) => resolved(db@.rooms, room_id@, texts(events@)) == Some(state@),
                Err(_) => db_failed(r) && !db.reliable(),
            },
    {
        match self.try_resolve(db, room_id, events) {
            Ok(found) => Ok(found.unwrap()),
            Err(e) => Err(e),
        }
    }

    /// The state after some events, on the way from other events whose states rest on it.
    fn resolve_along<S: Storage>(
        &mut self,
        db: &S,
        room_id: &str,
        events: &Vec<String>,
        path: &mut Vec<String>,
    ) -> (r: Result<Option<State>, ErrorKind>)
        requires
            old(self).valid(db@.rooms),
            on_path(db@.rooms, room_id@, texts(old(path)@), texts(events@)),
        ensures
            final(self).valid(db@.rooms),
            texts(final(path)@) == texts(old(path)@),
            match r {
                Ok(Some(state)) => resolved(db@.rooms, room_id@, texts(events@)) == Some(state@),
                Ok(None) => resolved(db@.rooms, room_id@, texts(events@)) is None,
                Err(_) => db_failed(r) && !db.reliable(),
            },
        decreases
            ids_of(events_of(db@.rooms, room_id@)).len() - old(path)@.len(),
            (if names_one(texts(events@)) {
                0nat
            } else {
                1nat
            }),
    {
        let ghost rooms = db@.rooms;
        let ghost room = room_id@;
        let ghost ids = texts(events@);
        let ghost way = texts(path@);
        proof {
            lemma_path_room(rooms, room, way, ids);
        }
        if events.len() == 0 {
            proof {
                assert(resolved_within(rooms, room, ids, 0) is Some);
                lemma_resolved(rooms, room, ids, 0);
            }
            return Ok(Some(State::new(room_id)));
        }
        if is_one(events) {
            let event_id = &events[0];
            let ghost id = event_id@;
            assert(ids[0] == id);
            proof {
                lemma_one(rooms, room, ids);
            }
            if let Some(state) = self.cache.get(event_id) {
                if same(state.room_id.as_str(), room_id) {
                    proof {
                        assert(self.remembered().contains_key(id));
                    }
                    return Ok(Some(state.duplicate()));
                }
            }
            let event = match db.get_pdu(room_id, event_id.as_str()) {
                Ok(Some(event)) => event,
                Ok(None) => {
                    proof {
                        crate::state::rules::law_resolved_one(rooms, room, id);
                    }
                    return Ok(None);
                },
                Err(e) => return Err(e),
            };
            if holds(path, event_id.as_str()) {
                proof {
                    lemma_circle(rooms, room, way, ids, id);
                }
                return Ok(None);
            }
            let ghost prev = event@.pdu.prev_events;
            path.push(event_id.clone());
            proof {
                assert(texts(path@) =~= way.push(id));
                lemma_longer_path(rooms, room, way, ids, id);
                crate::state::rules::law_resolved_one(rooms, room, id);
            }
            let ghost longer = texts(path@);
            let before = self.resolve_along(db, room_id, event.prev_events(), path);
            let _popped = path.pop();
            proof {
                assert(texts(path@) =~= longer.drop_last());
                assert(longer.drop_last() =~= way);
            }
            let mut state = match before {
                Ok(Some(state)) => state,
                Ok(None) => return Ok(None),
                Err(e) => return Err(e),
            };
            if event.did_pass_auth() && event.state_key().is_some() {
                state.insert_event(&event);
            }
            proof {
                lemma_state_room(rooms, room, seq![id]);
            }
            self.cache.insert(event_id.clone(), state.duplicate());
            return Ok(Some(state));
        }
        let mut states: Vec<State> = Vec::new();
        let mut i: usize = 0;
        while i < events.len()
            invariant
                i <= events@.len(),
                rooms == db@.rooms,
                room == room_id@,
                ids == texts(events@),
                way == texts(path@),
                way == texts(old(path)@),
                !names_one(ids),
                ids.len() > 0,
                on_path(rooms, room, way, ids),
                self.valid(rooms),
                states@.len() == i,
                forall|j: int|
                    0 <= j < i ==> resolved(rooms, room, seq![#[trigger] ids[j]]) == Some(
                        states@[j]@,
                    ),
            decreases events@.len() - i,
        {
            let mut one: Vec<String> = Vec::new();
            one.push(events[i].clone());
            proof {
                assert(texts(one@) =~= seq![ids[i as int]]);
                lemma_branch_path(rooms, room, way, ids, i as int);
                assert(names_one(texts(one@)));
                assert(path@.len() == old(path)@.len()) by {
                    assert(texts(path@).len() == texts(old(path)@).len());
                }
            }
            match self.resolve_along(db, room_id, &one, path) {
                Ok(Some(state)) => states.push(state),
                Ok(None) => {
                    proof {
                        lemma_branch_unknown(rooms, room, ids, i as int);
                    }
                    return Ok(None);
                },
                Err(e) => return Err(e),
            }
            i += 1;
        }
        proof {
            lemma_combined(rooms, room, ids, state_maps(states@));
        }
        combine(db, room_id, events, &states)
    }
}

/// Whether a list names one event only.
fn is_one(events: &Vec<String>) -> (r: bool)
    ensures
        r == names_one(texts(events@)),
{
    if events.len() == 0 {
        return false;
    }
    let mut i: usize = 0;
    while i < events.len()
        invariant
            i <= events@.len(),
            events@.len() > 0,
            forall|j: int| 0 <= j < i ==> #[trigger] texts(events@)[j] == texts(events@)[0],
        decreases events@.len() - i,
    {
        if !same(events[i].as_str(), events[0].as_str()) {
            assert(texts(events@)[i as int] != texts(events@)[0]);
            return false;
        }
        assert(texts(events@)[i as int] == texts(events@)[0]);
        i += 1;
    }
    true
}

/// Whether, for the state after an event to be known within a depth, the state after some events has
/// to be known within a smaller one.
pub open spec fn depends(
    rooms: Map<Seq<char>, RoomView>,
    room: Seq<char>,
    id: Seq<char>,
    ids: Seq<Seq<char>>,
) -> bool {
    forall|depth: nat| #[trigger]
        resolved_within(rooms, room, seq![id], depth) is Some ==> exists|less: nat|
            less < depth && #[trigger] resolved_within(rooms, room, ids, less) is Some
}

/// Whether the states after distinct events of a room rest on the state after some events.
pub open spec fn on_path(
    rooms: Map<Seq<char>, RoomView>,
    room: Seq<char>,
    path: Seq<Seq<char>>,
    ids: Seq<Seq<char>>,
) -> bool {
    &&& path.no_duplicates()
    &&& forall|j: int| 0 <= j < path.len() ==> find_pdu(rooms, room, #[trigger] path[j]) is Some
    &&& forall|j: int| 0 <= j < path.len() ==> depends(rooms, room, #[trigger] path[j], ids)
}

proof fn lemma_path_room(
    rooms: Map<Seq<char>, RoomView>,
    room: Seq<char>,
    path: Seq<Seq<char>>,
    ids: Seq<Seq<char>>,
)
    requires
        on_path(rooms, room, path, ids),
    ensures
        path.len() <= ids_of(events_of(rooms, room)).len(),
        forall|id: Seq<char>|
            find_pdu(rooms, room, id) is Some && !(#[trigger] path.contains(id)) ==> path.len()
                < ids_of(events_of(rooms, room)).len(),
{
    let all = ids_of(events_of(rooms, room));
    lemma_ids_finite(events_of(rooms, room));
    path.unique_seq_to_set();
    vstd::seq_lib::seq_to_set_is_finite(path);
    assert forall|x: Seq<char>| path.to_set().contains(x) implies all.contains(x) by {
        let j = choose|j: int| 0 <= j < path.len() && path[j] == x;
        lemma_found(rooms, room, path[j]);
    }
    vstd::set_lib::lemma_len_subset(path.to_set(), all);
    assert forall|id: Seq<char>|
        find_pdu(rooms, room, id) is Some && !(#[trigger] path.contains(id)) implies path.len()
        < all.len() by {
        lemma_found(rooms, room, id);
        let more = path.to_set().insert(id);
        assert(more.subset_of(all));
        vstd::set_lib::lemma_len_subset(more, all);
    }
}

/// The state after a list that names one event is the state after that event.
pub proof fn lemma_one(rooms: Map<Seq<char>, RoomView>, room: Seq<char>, ids: Seq<Seq<char>>)
    requires
        names_one(ids),
    ensures
        resolved(rooms, room, ids) == resolved(rooms, room, seq![ids[0]]),
        forall|depth: nat| #[trigger]
            resolved_within(rooms, room, ids, depth) == resolved_within(
                rooms,
                room,
                seq![ids[0]],
                depth,
            ),
{
    let one = seq![ids[0]];
    assert(names_one(one));
    assert forall|depth: nat| #[trigger]
        resolved_within(rooms, room, ids, depth) == resolved_within(rooms, room, one, depth) by {}
    if resolved(rooms, room, ids) is Some {
        let depth = choose|depth: nat| #[trigger] resolved_within(rooms, room, ids, depth) is Some;
        assert(resolved_within(rooms, room, ids, depth) is Some);
        lemma_resolved(rooms, room, one, depth);
    }
    if resolved(rooms, room, one) is Some {
        let depth = choose|depth: nat| #[trigger] resolved_within(rooms, room, one, depth) is Some;
        assert(resolved_within(rooms, room, one, depth) is Some);
        assert(resolved_within(rooms, room, ids, depth) is Some);
        lemma_resolved(rooms, room, ids, depth);
    }
}

/// The state after an event that rests on itself is not known.
proof fn lemma_circle(
    rooms: Map<Seq<char>, RoomView>,
    room: Seq<char>,
    path: Seq<Seq<char>>,
    ids: Seq<Seq<char>>,
    id: Seq<char>,
)
    requires
        on_path(rooms, room, path, ids),
        path.contains(id),
        names_one(ids),
        ids[0] == id,
    ensures
        resolved(rooms, room, ids) is None,
{
    let j = choose|j: int| 0 <= j < path.len() && path[j] == id;
    assert(depends(rooms, room, path[j], ids));
    lemma_one(rooms, room, ids);
    assert forall|depth: nat| #[trigger] resolved_within(rooms, room, ids, depth) is None by {
        lemma_never(rooms, room, id, ids, depth);
    }
}

proof fn lemma_never(
    rooms: Map<Seq<char>, RoomView>,
    room: Seq<char>,
    id: Seq<char>,
    ids: Seq<Seq<char>>,
    depth: nat,
)
    requires
        depends(rooms, room, id, ids),
        names_one(ids),
        ids[0] == id,
    ensures
        resolved_within(rooms, room, ids, depth) is None,
    decreases depth,
{
    lemma_one(rooms, room, ids);
    if resolved_within(rooms, room, ids, depth) is Some {
        assert(resolved_within(rooms, room, seq![id], depth) is Some);
        let less = choose|less: nat|
            less < depth && #[trigger] resolved_within(rooms, room, ids, less) is Some;
        lemma_never(rooms, room, id, ids, less);
    }
}

/// The state after an event rests on the state after the events before it.
proof fn lemma_longer_path(
    rooms: Map<Seq<char>, RoomView>,
    room: Seq<char>,
    path: Seq<Seq<char>>,
    ids: Seq<Seq<char>>,
    id: Seq<char>,
)
    requires
        on_path(rooms, room, path, ids),
        names_one(ids),
        ids[0] == id,
        !path.contains(id),
        find_pdu(rooms, room, id) is Some,
    ensures
        on_path(
            rooms,
            room,
            path.push(id),
            find_pdu(rooms, room, id)->0.pdu.prev_events,
        ),
{
    let prev = find_pdu(rooms, room, id)->0.pdu.prev_events;
    let longer = path.push(id);
    lemma_one(rooms, room, ids);
    assert(names_one(seq![id]));
    assert(depends(rooms, room, id, prev)) by {
        assert forall|depth: nat| #[trigger]
            resolved_within(rooms, room, seq![id], depth) is Some implies exists|less: nat|
            less < depth && #[trigger] resolved_within(rooms, room, prev, less) is Some by {
            assert(resolved_within(rooms, room, prev, (depth - 1) as nat) is Some);
        }
    }
    assert forall|j: int| 0 <= j < longer.len() implies depends(
        rooms,
        room,
        #[trigger] longer[j],
        prev,
    ) by {
        if j < path.len() {
            assert(longer[j] == path[j]);
            assert(depends(rooms, room, path[j], ids));
            assert forall|depth: nat| #[trigger]
                resolved_within(rooms, room, seq![path[j]], depth) is Some implies exists|
                less: nat,
            | less < depth && #[trigger] resolved_within(rooms, room, prev, less) is Some by {
                let mid = choose|mid: nat|
                    mid < depth && #[trigger] resolved_within(rooms, room, ids, mid) is Some;
                assert(resolved_within(rooms, room, seq![id], mid) is Some);
                let less = choose|less: nat|
                    less < mid && #[trigger] resolved_within(rooms, room, prev, less) is Some;
                assert(resolved_within(rooms, room, prev, less) is Some);
            }
        }
    }
    assert forall|j: int| 0 <= j < longer.len() implies find_pdu(
        rooms,
        room,
        #[trigger] longer[j],
    ) is Some by {
        if j < path.len() {
            assert(longer[j] == path[j]);
        }
    }
}

/// The state after several events rests on the state after each of them.
proof fn lemma_branch_path(
    rooms: Map<Seq<char>, RoomView>,
    room: Seq<char>,
    path: Seq<Seq<char>>,
    ids: Seq<Seq<char>>,
    i: int,
)
    requires
        on_path(rooms, room, path, ids),
        !names_one(ids),
        0 <= i < ids.len(),
    ensures
        on_path(rooms, room, path, seq![ids[i]]),
{
    let one = seq![ids[i]];
    assert forall|j: int| 0 <= j < path.len() implies depends(
        rooms,
        room,
        #[trigger] path[j],
        one,
    ) by {
        assert(depends(rooms, room, path[j], ids));
        assert forall|depth: nat| #[trigger]
            resolved_within(rooms, room, seq![path[j]], depth) is Some implies exists|less: nat|
            less < depth && #[trigger] resolved_within(rooms, room, one, less) is Some by {
            let mid = choose|mid: nat|
                mid < depth && #[trigger] resolved_within(rooms, room, ids, mid) is Some;
            assert(branches_within(rooms, room, ids, (mid - 1) as nat) is Some);
            assert(resolved_within(rooms, room, seq![ids[i]], (mid - 1) as nat) is Some);
        }
    }
}

/// Where the state after one of several events is not known, neither is the state after all.
pub proof fn lemma_branch_unknown(
    rooms: Map<Seq<char>, RoomView>,
    room: Seq<char>,
    ids: Seq<Seq<char>>,
    i: int,
)
    requires
        !names_one(ids),
        0 <= i < ids.len(),
        resolved(rooms, room, seq![ids[i]]) is None,
    ensures
        resolved(rooms, room, ids) is None,
{
    assert forall|depth: nat| #[trigger] resolved_within(rooms, room, ids, depth) is None by {
        if resolved_within(rooms, room, ids, depth) is Some {
            assert(branches_within(rooms, room, ids, (depth - 1) as nat) is Some);
            assert(resolved_within(rooms, room, seq![ids[i]], (depth - 1) as nat) is Some);
        }
    }
}

/// The state after several events is what the states after each of them resolve into.
pub proof fn lemma_combined(
    rooms: Map<Seq<char>, RoomView>,
    room: Seq<char>,
    ids: Seq<Seq<char>>,
    maps: Seq<Map<(Seq<char>, Seq<char>), Seq<char>>>,
)
    requires
        ids.len() > 0,
        !names_one(ids),
        maps.len() == ids.len(),
        forall|j: int|
            0 <= j < ids.len() ==> (#[trigger] resolved(rooms, room, seq![ids[j]])) is Some
                && resolved(rooms, room, seq![ids[j]])->0.map == maps[j],
    ensures
        resolved(rooms, room, ids) == combined(rooms, room, ids, maps),
{
    let depth = lemma_common_depth(rooms, room, ids, ids.len() as int);
    assert forall|j: int| 0 <= j < ids.len() implies resolved_within(
        rooms,
        room,
        seq![#[trigger] ids[j]],
        depth,
    ) is Some && (resolved_within(rooms, room, seq![ids[j]], depth)->0).map == maps[j] by {
        lemma_resolved(rooms, room, seq![ids[j]], depth);
        assert(resolved(rooms, room, seq![ids[j]]) is Some);
    }
    let branches = branches_within(rooms, room, ids, depth);
    assert(branches is Some);
    assert(branches->0 =~= maps);
    assert(resolved_within(rooms, room, ids, depth + 1) == combined(rooms, room, ids, maps));
    if combined(rooms, room, ids, maps) is Some {
        lemma_resolved(rooms, room, ids, depth + 1);
    } else if resolved(rooms, room, ids) is Some {
        let other = choose|other: nat| #[trigger] resolved_within(rooms, room, ids, other) is Some;
        assert(resolved_within(rooms, room, ids, other) is Some);
        if other <= depth + 1 {
            lemma_deeper(rooms, room, ids, other, depth + 1);
        } else {
            let far = branches_within(rooms, room, ids, (other - 1) as nat);
            assert(far is Some);
            assert forall|j: int| 0 <= j < ids.len() implies resolved_within(
                rooms,
                room,
                seq![#[trigger] ids[j]],
                (other - 1) as nat,
            ) == resolved_within(rooms, room, seq![ids[j]], depth) by {
                lemma_deeper(rooms, room, seq![ids[j]], depth, (other - 1) as nat);
            }
            assert(far->0 =~= maps);
        }
    }
}

/// A depth within which the states after each of the first events are known.
proof fn lemma_common_depth(
    rooms: Map<Seq<char>, RoomView>,
    room: Seq<char>,
    ids: Seq<Seq<char>>,
    n: int,
) -> (depth: nat)
    requires
        0 <= n <= ids.len(),
        forall|j: int|
            0 <= j < ids.len() ==> (#[trigger] resolved(rooms, room, seq![ids[j]])) is Some,
    ensures
        forall|j: int|
            0 <= j < n ==> resolved_within(rooms, room, seq![#[trigger] ids[j]], depth) is Some,
    decreases n,
{
    if n == 0 {
        0
    } else {
        let before = lemma_common_depth(rooms, room, ids, n - 1);
        let one = seq![ids[n - 1]];
        assert(resolved(rooms, room, seq![ids[n - 1]]) is Some);
        let own = choose|own: nat| #[trigger] resolved_within(rooms, room, one, own) is Some;
        assert(resolved_within(rooms, room, one, own) is Some);
        let depth = if before < own {
            own
        } else {
            before
        };
        assert forall|j: int| 0 <= j < n implies resolved_within(
            rooms,
            room,
            seq![#[trigger] ids[j]],
            depth,
        ) is Some by {
            if j == n - 1 {
                lemma_deeper(rooms, room, one, own, depth);
            } else {
                lemma_deeper(rooms, room, seq![ids[j]], before, depth);
            }
        }
        depth
    }
}

/// The state after some events of a room is a state of that room.
pub proof fn lemma_state_room(
    rooms: Map<Seq<char>, RoomView>,
    room: Seq<char>,
    ids: Seq<Seq<char>>,
)
    ensures
        resolved(rooms, room, ids) is Some ==> resolved(rooms, room, ids)->0.room_id == room,
{
    if resolved(rooms, room, ids) is Some {
        let depth = choose|depth: nat| #[trigger] resolved_within(rooms, room, ids, depth) is Some;
        assert(resolved_within(rooms, room, ids, depth) is Some);
        lemma_state_room_within(rooms, room, ids, depth);
    }
}

proof fn lemma_state_room_within(
    rooms: Map<Seq<char>, RoomView>,
    room: Seq<char>,
    ids: Seq<Seq<char>>,
    depth: nat,
)
    requires
        resolved_within(rooms, room, ids, depth) is Some,
    ensures
        resolved_within(rooms, room, ids, depth)->0.room_id == room,
    decreases depth,
{
    if ids.len() > 0 {
        if names_one(ids) {
            let e = find_pdu(rooms, room, ids[0])->0;
            lemma_state_room_within(rooms, room, e.pdu.prev_events, (depth - 1) as nat);
        } else {
            let maps = branches_within(rooms, room, ids, (depth - 1) as nat)->0;
            reveal(combined);
            let conflicted = full_conflicted(rooms, room, ids, maps);
            let partial = after_power(rooms, room, conflicted, unconflicted(maps))->0;
            let line = mainline(rooms, room, partial[("m.room.power_levels"@, ""@)])->0;
            let plain = plain_events(rooms, room, conflicted);
            lemma_plain_room(
                rooms,
                StateView { room_id: room, map: partial },
                key_ids(sorted(plain_keys(rooms, room, line, plain))),
            );
        }
    }
}

proof fn lemma_plain_room(
    rooms: Map<Seq<char>, RoomView>,
    state: StateView,
    order: Seq<Seq<char>>,
)
    ensures
        apply_plain(rooms, state, order) is Some ==> apply_plain(rooms, state, order)->0.room_id
            == state.room_id,
    decreases order.len(),
{
    if order.len() > 0 {
        let e = find_pdu(rooms, state.room_id, order[0])->0;
        lemma_plain_room(rooms, state, order.drop_first());
        lemma_plain_room(rooms, with_event(state, e), order.drop_first());
    }
}

} // verus!
