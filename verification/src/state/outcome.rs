//! What becomes of the events that the states of a room do not agree on.
use crate::events::room::Membership;
use crate::events::room_version::v4::PduView;
use crate::events::ContentView;
use crate::state::chain::{
    auth_difference, cites, events_of, ids_of, in_chain, leads, lemma_found, lemma_ids_finite,
};
use crate::state::laws::mainline_index;
use crate::state::levels::lemma_closest;
use crate::state::order::{key_ids, lemma_sorted, sorted, SortKeyView};
use crate::state::resolver::lemma_combined;
use crate::state::rules::{
    agreed, all_found, apply_plain, apply_power, cited_levels, closest, closest_within, combined,
    first_levels, first_state, full_conflicted, is_conflicted, is_first, is_power_pdu,
    lemma_round_smaller, mainline, mainline_within, names_one, plain_base, plain_events, plain_key,
    plain_keys, power_events, power_key, power_keys, power_order, resolved, unconflicted, uncited,
};
use crate::state::{with_event, StateView};
use crate::storage::{find_in, find_pdu, RoomView};
use crate::text::lex_less;
use crate::util::storage::{level_by, sender_level};
use crate::validate::auth::{auth_rules, AuthStatus};
use vstd::prelude::*;

verus! {

/// The type and the state key of an event of a room.
pub open spec fn place_of(
    rooms: Map<Seq<char>, RoomView>,
    room: Seq<char>,
    id: Seq<char>,
) -> (Seq<char>, Seq<char>) {
    let pdu = find_pdu(rooms, room, id)->0.pdu;
    (pdu.content.label(), pdu.state_key->0)
}

/// Whether two states name different events for a key, one of them this one.
pub open spec fn contested(
    states: Seq<Map<(Seq<char>, Seq<char>), Seq<char>>>,
    x: Seq<char>,
) -> bool {
    exists|i: int, j: int, key: (Seq<char>, Seq<char>)|
        0 <= i < states.len() && 0 <= j < states.len() && #[trigger] states[i].contains_key(key)
            && #[trigger] states[j].contains_key(key) && states[i][key] == x && states[j][key] != x
}

/// Whether an event is in the auth chain of one event and not in that of another.
pub open spec fn one_sided(
    rooms: Map<Seq<char>, RoomView>,
    room: Seq<char>,
    ids: Seq<Seq<char>>,
    x: Seq<char>,
) -> bool {
    exists|i: int, j: int|
        0 <= i < ids.len() && 0 <= j < ids.len() && in_chain(rooms, room, #[trigger] ids[i], x)
            && !in_chain(rooms, room, #[trigger] ids[j], x)
}

/// Whether an event has to be settled.
pub open spec fn disputed(
    rooms: Map<Seq<char>, RoomView>,
    room: Seq<char>,
    ids: Seq<Seq<char>>,
    states: Seq<Map<(Seq<char>, Seq<char>), Seq<char>>>,
    x: Seq<char>,
) -> bool {
    contested(states, x) || one_sided(rooms, room, ids, x)
}

/// Whether an event changes who may do what: the power levels, the join rules, or someone else being
/// kicked or banned.
pub open spec fn changes_powers(pdu: PduView) -> bool {
    ||| pdu.content is PowerLevels
    ||| pdu.content is JoinRules
    ||| (pdu.content matches ContentView::Member(m) && pdu.state_key != Some(pdu.sender) && (
    m.membership == Membership::Leave || m.membership == Membership::Ban))
}

/// Whether an event comes before another along the mainline from its end to its start, then by time,
/// then by identifier.
pub open spec fn earlier_turn(
    rooms: Map<Seq<char>, RoomView>,
    room: Seq<char>,
    line: Seq<Seq<char>>,
    x: Seq<char>,
    y: Seq<char>,
) -> bool {
    let i = mainline_index(rooms, room, line, x);
    let j = mainline_index(rooms, room, line, y);
    let s = find_pdu(rooms, room, x)->0.pdu.origin_server_ts;
    let t = find_pdu(rooms, room, y)->0.pdu.origin_server_ts;
    i > j || (i == j && (s < t || (s == t && lex_less(x, y))))
}

/// Whether the rules allow an event at its turn.
pub open spec fn allowed_in(
    rooms: Map<Seq<char>, RoomView>,
    room: Seq<char>,
    map: Map<(Seq<char>, Seq<char>), Seq<char>>,
    id: Seq<char>,
) -> bool {
    let pdu = find_pdu(rooms, room, id)->0.pdu;
    pdu.state_key is Some && auth_rules(
        rooms,
        pdu,
        plain_base(rooms, StateView { room_id: room, map }, pdu),
    ) == Some(AuthStatus::Pass)
}

/// How the events that decide nothing on the powers of users are settled.
pub struct Settlement {
    /// The mainline.
    pub line: Seq<Seq<char>>,
    /// The events in the order in which they have their turns.
    pub order: Seq<Seq<char>>,
    /// The state before each turn, and at the end.
    pub turns: Seq<Map<(Seq<char>, Seq<char>), Seq<char>>>,
}

/// Whether a settlement goes through the events in their order, and puts each into the state that is
/// allowed at its turn.
pub open spec fn settles(
    rooms: Map<Seq<char>, RoomView>,
    room: Seq<char>,
    ids: Seq<Seq<char>>,
    states: Seq<Map<(Seq<char>, Seq<char>), Seq<char>>>,
    partial: Map<(Seq<char>, Seq<char>), Seq<char>>,
    s: Settlement,
) -> bool {
    &&& partial.contains_key(("m.room.power_levels"@, ""@))
    &&& mainline(rooms, room, partial[("m.room.power_levels"@, ""@)]) == Some(s.line)
    &&& s.order.no_duplicates()
    &&& forall|x: Seq<char>| #[trigger]
        s.order.contains(x) <==> disputed(rooms, room, ids, states, x) && !changes_powers(
            find_pdu(rooms, room, x)->0.pdu,
        )
    &&& forall|i: int, j: int|
        0 <= i < j < s.order.len() ==> earlier_turn(
            rooms,
            room,
            s.line,
            #[trigger] s.order[i],
            #[trigger] s.order[j],
        )
    &&& s.turns.len() == s.order.len() + 1
    &&& s.turns[0] == partial
    &&& forall|i: int|
        0 <= i < s.order.len() ==> s.turns[i + 1] == if allowed_in(
            rooms,
            room,
            s.turns[i],
            #[trigger] s.order[i],
        ) {
            s.turns[i].insert(place_of(rooms, room, s.order[i]), s.order[i])
        } else {
            s.turns[i]
        }
}

/// Whether all states that have an event for a key have the same, and some state has one.
pub open spec fn undisputed(
    states: Seq<Map<(Seq<char>, Seq<char>), Seq<char>>>,
    key: (Seq<char>, Seq<char>),
    id: Seq<char>,
) -> bool {
    &&& exists|i: int|
        0 <= i < states.len() && #[trigger] states[i].contains_key(key) && states[i][key] == id
    &&& forall|i: int|
        0 <= i < states.len() && #[trigger] states[i].contains_key(key) ==> states[i][key] == id
}

/// Whether the states agree on no event for a key.
pub open spec fn no_agreement(
    states: Seq<Map<(Seq<char>, Seq<char>), Seq<char>>>,
    key: (Seq<char>, Seq<char>),
) -> bool {
    forall|id: Seq<char>| !undisputed(states, key, id)
}

/// Whether two events are cited by the same ones of some events.
pub open spec fn cited_alike(
    rooms: Map<Seq<char>, RoomView>,
    room: Seq<char>,
    order: Seq<Seq<char>>,
    x: Seq<char>,
    y: Seq<char>,
) -> bool {
    forall|z: Seq<char>| #[trigger]
        order.contains(z) ==> cites(rooms, room, z, x) == cites(rooms, room, z, y)
}

/// Whether the sender of an event has a lower level than that of another, or the same level and the
/// event came earlier, or at the same time with a lesser identifier.
pub open spec fn lesser_power(
    rooms: Map<Seq<char>, RoomView>,
    room: Seq<char>,
    x: Seq<char>,
    y: Seq<char>,
) -> bool {
    let e = find_pdu(rooms, room, x)->0.pdu;
    let f = find_pdu(rooms, room, y)->0.pdu;
    let i = sender_level(rooms, e.room_id, x)->0;
    let j = sender_level(rooms, f.room_id, y)->0;
    i < j || (i == j && (e.origin_server_ts < f.origin_server_ts || (e.origin_server_ts
        == f.origin_server_ts && lex_less(x, y))))
}

/// Whether the events that decide on the powers of users stand in their order: what cites comes before
/// what it cites, and where that leaves it open, the level of the sender, the time and the identifier
/// decide.
pub open spec fn in_power_order(
    rooms: Map<Seq<char>, RoomView>,
    room: Seq<char>,
    order: Seq<Seq<char>>,
) -> bool {
    &&& order.no_duplicates()
    &&& forall|i: int, j: int|
        0 <= i < j < order.len() ==> !cites(rooms, room, #[trigger] order[j], #[trigger] order[i])
    &&& forall|i: int, j: int|
        0 <= i < j < order.len() && cited_alike(rooms, room, order, order[i], order[j])
            ==> lesser_power(rooms, room, #[trigger] order[i], #[trigger] order[j])
}

/// Whether an event of a list is the last state event in it for a key.
pub open spec fn last_for(
    rooms: Map<Seq<char>, RoomView>,
    room: Seq<char>,
    order: Seq<Seq<char>>,
    key: (Seq<char>, Seq<char>),
    k: int,
) -> bool {
    &&& 0 <= k < order.len()
    &&& is_for(rooms, room, order[k], key)
    &&& forall|i: int| k < i < order.len() ==> !is_for(rooms, room, #[trigger] order[i], key)
}

/// Whether an event is a state event for a key.
pub open spec fn is_for(
    rooms: Map<Seq<char>, RoomView>,
    room: Seq<char>,
    id: Seq<char>,
    key: (Seq<char>, Seq<char>),
) -> bool {
    find_pdu(rooms, room, id)->0.pdu.state_key is Some && place_of(rooms, room, id) == key
}

/// Whether a state is what the states agree on under the events that decide on the powers of users, the
/// last of them for each key.
pub open spec fn empowers(
    rooms: Map<Seq<char>, RoomView>,
    room: Seq<char>,
    ids: Seq<Seq<char>>,
    states: Seq<Map<(Seq<char>, Seq<char>), Seq<char>>>,
    order: Seq<Seq<char>>,
    partial: Map<(Seq<char>, Seq<char>), Seq<char>>,
) -> bool {
    &&& forall|x: Seq<char>| #[trigger]
        order.contains(x) <==> disputed(rooms, room, ids, states, x) && changes_powers(
            find_pdu(rooms, room, x)->0.pdu,
        )
    &&& in_power_order(rooms, room, order)
    &&& forall|key: (Seq<char>, Seq<char>), k: int| #[trigger]
        last_for(rooms, room, order, key, k) ==> partial.contains_key(key) && partial[key]
            == order[k]
    &&& forall|key: (Seq<char>, Seq<char>), id: Seq<char>|
        #![trigger undisputed(states, key, id)]
        (forall|i: int| 0 <= i < order.len() ==> !is_for(rooms, room, #[trigger] order[i], key))
            ==> (undisputed(states, key, id) <==> partial.contains_key(key) && partial[key] == id)
}

proof fn lemma_unconflicted_at(
    states: Seq<Map<(Seq<char>, Seq<char>), Seq<char>>>,
    key: (Seq<char>, Seq<char>),
    id: Seq<char>,
)
    ensures
        undisputed(states, key, id) <==> unconflicted(states).contains_key(key) && unconflicted(
            states,
        )[key] == id,
{
    if undisputed(states, key, id) {
        let i = choose|i: int|
            0 <= i < states.len() && #[trigger] states[i].contains_key(key) && states[i][key] == id;
        assert(states[i].contains_key(key));
        assert(agreed(states, key));
    }
    if unconflicted(states).contains_key(key) && unconflicted(states)[key] == id {
        assert(agreed(states, key));
        let i = choose|i: int| 0 <= i < states.len() && (#[trigger] states[i]).contains_key(key);
        assert(states[i].contains_key(key));
        assert(states[i][key] == id);
        assert forall|j: int|
            0 <= j < states.len() && #[trigger] states[j].contains_key(key) implies states[j][key]
            == id by {
            assert(states[j][key] == states[i][key]);
        }
    }
}

proof fn lemma_disputed(
    rooms: Map<Seq<char>, RoomView>,
    room: Seq<char>,
    ids: Seq<Seq<char>>,
    states: Seq<Map<(Seq<char>, Seq<char>), Seq<char>>>,
    x: Seq<char>,
)
    ensures
        full_conflicted(rooms, room, ids, states).contains(x) == disputed(
            rooms,
            room,
            ids,
            states,
            x,
        ),
{
    if is_conflicted(states, x) {
        let (i, key) = choose|i: int, key: (Seq<char>, Seq<char>)|
            0 <= i < states.len() && (#[trigger] states[i].contains_key(key)) && states[i][key] == x
                && !agreed(states, key);
        assert(states[i].contains_key(key));
        let (a, b) = choose|a: int, b: int|
            0 <= a < states.len() && 0 <= b < states.len() && (#[trigger] states[a]).contains_key(
                key,
            ) && (#[trigger] states[b]).contains_key(key) && states[a][key] != states[b][key];
        if states[a][key] != x {
            assert(states[i].contains_key(key) && states[a].contains_key(key));
        } else {
            assert(states[i].contains_key(key) && states[b].contains_key(key));
        }
        assert(contested(states, x));
    }
    if contested(states, x) {
        let (i, j, key) = choose|i: int, j: int, key: (Seq<char>, Seq<char>)|
            0 <= i < states.len() && 0 <= j < states.len() && #[trigger] states[i].contains_key(key)
                && #[trigger] states[j].contains_key(key) && states[i][key] == x && states[j][key]
                != x;
        assert(states[i].contains_key(key) && states[j].contains_key(key));
        assert(!agreed(states, key));
        assert(is_conflicted(states, x));
    }
    if one_sided(rooms, room, ids, x) {
        let (i, j) = choose|i: int, j: int|
            0 <= i < ids.len() && 0 <= j < ids.len() && in_chain(rooms, room, #[trigger] ids[i], x)
                && !in_chain(rooms, room, #[trigger] ids[j], x);
        assert(in_chain(rooms, room, ids[i], x) && !in_chain(rooms, room, ids[j], x));
        assert(auth_difference(rooms, room, ids).contains(x));
    }
    if auth_difference(rooms, room, ids).contains(x) {
        let i = choose|i: int| 0 <= i < ids.len() && in_chain(rooms, room, #[trigger] ids[i], x);
        let j = choose|j: int| 0 <= j < ids.len() && !in_chain(rooms, room, #[trigger] ids[j], x);
        assert(in_chain(rooms, room, ids[i], x) && !in_chain(rooms, room, ids[j], x));
        assert(one_sided(rooms, room, ids, x));
    }
}

proof fn lemma_finite(rooms: Map<Seq<char>, RoomView>, room: Seq<char>, ids: Set<Seq<char>>)
    requires
        all_found(rooms, room, ids),
    ensures
        ids.finite(),
{
    let all = ids_of(events_of(rooms, room));
    lemma_ids_finite(events_of(rooms, room));
    assert forall|x: Seq<char>| ids.contains(x) implies all.contains(x) by {
        lemma_found(rooms, room, x);
    }
    vstd::set_lib::lemma_len_subset(ids, all);
}

/// Keys made of the events of a finite set stand in ascending order, each event once.
proof fn lemma_key_order(
    ids: Set<Seq<char>>,
    keys: Set<SortKeyView>,
    key: spec_fn(Seq<char>) -> SortKeyView,
)
    requires
        ids.finite(),
        forall|x: Seq<char>| (#[trigger] key(x)).id == x,
        forall|k: SortKeyView| #[trigger] keys.contains(k) <==> ids.contains(k.id) && k == key(k.id),
    ensures
        key_ids(sorted(keys)).no_duplicates(),
        forall|x: Seq<char>| #[trigger] key_ids(sorted(keys)).contains(x) <==> ids.contains(x),
        forall|i: int, j: int|
            0 <= i < j < key_ids(sorted(keys)).len() ==> crate::state::order::key_less(
                key(#[trigger] key_ids(sorted(keys))[i]),
                key(#[trigger] key_ids(sorted(keys))[j]),
            ),
{
    let made = ids.map(key);
    ids.lemma_map_finite(key);
    assert(keys =~= made) by {
        assert forall|k: SortKeyView| keys.contains(k) implies made.contains(k) by {
            assert(ids.contains(k.id));
        }
    }
    lemma_sorted(keys);
    let s = sorted(keys);
    let order = key_ids(s);
    assert forall|i: int| 0 <= i < s.len() implies ids.contains(#[trigger] order[i]) && s[i] == key(
        order[i],
    ) by {
        assert(s.to_set().contains(s[i]));
        assert(keys.contains(s[i]));
    }
    assert forall|i: int, j: int| 0 <= i < j < order.len() implies crate::state::order::key_less(
        key(#[trigger] order[i]),
        key(#[trigger] order[j]),
    ) by {
        assert(s[i] == key(order[i]) && s[j] == key(order[j]));
    }
    assert forall|i: int, j: int|
        0 <= i < order.len() && 0 <= j < order.len() && i != j implies order[i] != order[j] by {
        if i < j {
            crate::state::order::law_key_irreflexive(key(order[i]));
            assert(crate::state::order::key_less(key(order[i]), key(order[j])));
        } else {
            crate::state::order::law_key_irreflexive(key(order[i]));
            assert(crate::state::order::key_less(key(order[j]), key(order[i])));
        }
    }
    assert forall|x: Seq<char>| ids.contains(x) implies #[trigger] order.contains(x) by {
        assert(keys.contains(key(x)));
        assert(s.to_set().contains(key(x)));
        let i = choose|i: int| 0 <= i < s.len() && s[i] == key(x);
        assert(order[i] == x);
    }
}

pub proof fn lemma_in_power_order(
    rooms: Map<Seq<char>, RoomView>,
    room: Seq<char>,
    ids: Set<Seq<char>>,
)
    requires
        ids.finite(),
        power_order(rooms, room, ids) is Some,
    ensures
        ({
            let order = power_order(rooms, room, ids)->0;
            &&& order.no_duplicates()
            &&& forall|x: Seq<char>| #[trigger] order.contains(x) <==> ids.contains(x)
            &&& forall|i: int, j: int|
                0 <= i < j < order.len() ==> !cites(
                    rooms,
                    room,
                    #[trigger] order[j],
                    #[trigger] order[i],
                )
            &&& forall|i: int, j: int|
                0 <= i < j < order.len() && cited_alike(rooms, room, order, order[i], order[j])
                    ==> lesser_power(rooms, room, #[trigger] order[i], #[trigger] order[j])
        }),
    decreases ids.len(),
{
    if ids.len() == 0 {
        assert(ids =~= Set::empty());
    } else {
        let round = uncited(rooms, room, ids);
        lemma_round_smaller(rooms, room, ids);
        let rest_ids = ids.difference(round);
        lemma_in_power_order(rooms, room, rest_ids);
        let rest = power_order(rooms, room, rest_ids)->0;
        let key = |x: Seq<char>| power_key(rooms, room, x);
        lemma_key_order(round, power_keys(rooms, room, round), key);
        let first = key_ids(sorted(power_keys(rooms, room, round)));
        let order = first + rest;
        let n = first.len() as int;
        assert forall|x: Seq<char>| #[trigger] order.contains(x) <==> ids.contains(x) by {
            if order.contains(x) {
                let i = choose|i: int| 0 <= i < order.len() && order[i] == x;
                if i < n {
                    assert(first[i] == x);
                    assert(first.contains(x));
                } else {
                    assert(rest[i - n] == x);
                    assert(rest.contains(x));
                }
            }
            if ids.contains(x) {
                if round.contains(x) {
                    assert(first.contains(x));
                    let i = choose|i: int| 0 <= i < first.len() && first[i] == x;
                    assert(order[i] == x);
                } else {
                    assert(rest.contains(x));
                    let i = choose|i: int| 0 <= i < rest.len() && rest[i] == x;
                    assert(order[n + i] == x);
                }
            }
        }
        assert forall|i: int| 0 <= i < order.len() implies if i < n {
            round.contains(#[trigger] order[i]) && order[i] == first[i]
        } else {
            rest_ids.contains(order[i]) && order[i] == rest[i - n]
        } by {
            if i < n {
                assert(first.contains(first[i]));
            } else {
                assert(rest.contains(rest[i - n]));
            }
        }
        assert forall|i: int, j: int| 0 <= i < j < order.len() implies order[i] != order[j] by {
            if i < n && j >= n {
                assert(round.contains(order[i]));
                assert(rest_ids.contains(order[j]));
            }
        }
        assert forall|i: int, j: int| 0 <= i < j < order.len() implies !cites(
            rooms,
            room,
            #[trigger] order[j],
            #[trigger] order[i],
        ) by {
            assert(order.contains(order[j]));
            if i < n {
                assert(round.contains(order[i]));
                assert(ids.contains(order[j]));
            } else {
                assert(order[i] == rest[i - n] && order[j] == rest[j - n]);
            }
        }
        assert forall|i: int, j: int|
            0 <= i < j < order.len() && cited_alike(
                rooms,
                room,
                order,
                order[i],
                order[j],
            ) implies lesser_power(rooms, room, #[trigger] order[i], #[trigger] order[j]) by {
            if j < n {
                assert(first[i] == order[i] && first[j] == order[j]);
                assert(crate::state::order::key_less(key(first[i]), key(first[j])));
            } else if i < n {
                assert(order.contains(order[j]));
                assert forall|z: Seq<char>| #[trigger] ids.contains(z) implies !cites(
                    rooms,
                    room,
                    z,
                    order[j],
                ) by {
                    assert(order.contains(z));
                    assert(round.contains(order[i]));
                }
                assert(round.contains(order[j]));
                assert(false);
            } else {
                assert(order[i] == rest[i - n] && order[j] == rest[j - n]);
                assert forall|z: Seq<char>| #[trigger] rest.contains(z) implies cites(
                    rooms,
                    room,
                    z,
                    order[i],
                ) == cites(rooms, room, z, order[j]) by {
                    assert(rest_ids.contains(z));
                    assert(order.contains(z));
                }
                assert(cited_alike(rooms, room, rest, rest[i - n], rest[j - n]));
            }
        }
    }
}

proof fn lemma_apply_power(
    rooms: Map<Seq<char>, RoomView>,
    room: Seq<char>,
    base: Map<(Seq<char>, Seq<char>), Seq<char>>,
    order: Seq<Seq<char>>,
    key: (Seq<char>, Seq<char>),
)
    requires
        apply_power(rooms, room, base, order) is Some,
    ensures
        ({
            let partial = apply_power(rooms, room, base, order)->0;
            &&& forall|k: int| #[trigger]
                last_for(rooms, room, order, key, k) ==> partial.contains_key(key) && partial[key]
                    == order[k]
            &&& (forall|i: int|
                0 <= i < order.len() ==> !is_for(rooms, room, #[trigger] order[i], key)) ==> (
            partial.contains_key(key) == base.contains_key(key) && partial[key] == base[key])
        }),
    decreases order.len(),
{
    if order.len() > 0 {
        let rest = order.drop_first();
        let e = find_pdu(rooms, room, order[0])->0;
        let next = match e.pdu.state_key {
            None => base,
            Some(k) => base.insert((e.pdu.content.label(), k), order[0]),
        };
        lemma_apply_power(rooms, room, next, rest, key);
        let partial = apply_power(rooms, room, base, order)->0;
        assert(apply_power(rooms, room, next, rest) == Some(partial));
        assert forall|k: int| #[trigger] last_for(rooms, room, order, key, k) implies
            partial.contains_key(key) && partial[key] == order[k] by {
            if k > 0 {
                assert(rest[k - 1] == order[k]);
                assert forall|i: int| k - 1 < i < rest.len() implies !is_for(
                    rooms,
                    room,
                    #[trigger] rest[i],
                    key,
                ) by {
                    assert(rest[i] == order[i + 1]);
                }
                assert(last_for(rooms, room, rest, key, k - 1));
            } else {
                assert forall|i: int| 0 <= i < rest.len() implies !is_for(
                    rooms,
                    room,
                    #[trigger] rest[i],
                    key,
                ) by {
                    assert(rest[i] == order[i + 1]);
                }
            }
        }
        if forall|i: int| 0 <= i < order.len() ==> !is_for(rooms, room, #[trigger] order[i], key) {
            assert(!is_for(rooms, room, order[0], key));
            assert forall|i: int| 0 <= i < rest.len() implies !is_for(
                rooms,
                room,
                #[trigger] rest[i],
                key,
            ) by {
                assert(rest[i] == order[i + 1]);
            }
        }
    }
}

/// Events that are found have the identifiers under which they are found.
proof fn lemma_found_id(rooms: Map<Seq<char>, RoomView>, room: Seq<char>, id: Seq<char>)
    requires
        find_pdu(rooms, room, id) is Some,
    ensures
        find_pdu(rooms, room, id)->0.id() == id,
{
    law_found_first(rooms[room].events, id);
}

/// The event that is found under an identifier is the first that has it, and none is found only where
/// none has it.
pub proof fn law_found_first(events: Seq<crate::events::pdu::StoredView>, id: Seq<char>)
    ensures
        match find_in(events, id) {
            Some(e) => exists|i: int|
                0 <= i < events.len() && #[trigger] events[i] == e && events[i].id() == id
                    && forall|j: int| 0 <= j < i ==> (#[trigger] events[j]).id() != id,
            None => forall|i: int| 0 <= i < events.len() ==> (#[trigger] events[i]).id() != id,
        },
    decreases events.len(),
{
    if events.len() > 0 {
        let rest = events.drop_first();
        law_found_first(rest, id);
        if events[0].id() == id {
            assert(events[0] == find_in(events, id)->0);
        } else {
            match find_in(rest, id) {
                Some(e) => {
                    let i = choose|i: int|
                        0 <= i < rest.len() && #[trigger] rest[i] == e && rest[i].id() == id
                            && forall|j: int| 0 <= j < i ==> (#[trigger] rest[j]).id() != id;
                    assert(events[i + 1] == e);
                    assert forall|j: int| 0 <= j < i + 1 implies (#[trigger] events[j]).id()
                        != id by {
                        if j > 0 {
                            assert(rest[j - 1] == events[j]);
                        }
                    }
                },
                None => {
                    assert forall|i: int| 0 <= i < events.len() implies (
                    #[trigger] events[i]).id() != id by {
                        if i > 0 {
                            assert(rest[i - 1] == events[i]);
                        }
                    }
                },
            }
        }
    }
}

pub proof fn lemma_turns(
    rooms: Map<Seq<char>, RoomView>,
    room: Seq<char>,
    map: Map<(Seq<char>, Seq<char>), Seq<char>>,
    order: Seq<Seq<char>>,
) -> (turns: Seq<Map<(Seq<char>, Seq<char>), Seq<char>>>)
    requires
        apply_plain(rooms, StateView { room_id: room, map }, order) is Some,
        forall|i: int| 0 <= i < order.len() ==> find_pdu(rooms, room, #[trigger] order[i]) is Some,
    ensures
        turns.len() == order.len() + 1,
        turns[0] == map,
        turns.last() == apply_plain(rooms, StateView { room_id: room, map }, order)->0.map,
        forall|i: int|
            0 <= i < order.len() ==> turns[i + 1] == if allowed_in(
                rooms,
                room,
                turns[i],
                #[trigger] order[i],
            ) {
                turns[i].insert(place_of(rooms, room, order[i]), order[i])
            } else {
                turns[i]
            },
    decreases order.len(),
{
    if order.len() == 0 {
        seq![map]
    } else {
        assert(find_pdu(rooms, room, order[0]) is Some);
        lemma_found_id(rooms, room, order[0]);
        let rest = order.drop_first();
        let next = if allowed_in(rooms, room, map, order[0]) {
            map.insert(place_of(rooms, room, order[0]), order[0])
        } else {
            map
        };
        assert forall|i: int| 0 <= i < rest.len() implies find_pdu(
            rooms,
            room,
            #[trigger] rest[i],
        ) is Some by {
            assert(rest[i] == order[i + 1]);
        }
        let e = find_pdu(rooms, room, order[0])->0;
        assert(with_event(StateView { room_id: room, map }, e) == (StateView {
            room_id: room,
            map: map.insert(place_of(rooms, room, order[0]), order[0]),
        }));
        let later = lemma_turns(rooms, room, next, rest);
        let turns = seq![map] + later;
        assert forall|i: int| 0 <= i < order.len() implies turns[i + 1] == if allowed_in(
            rooms,
            room,
            turns[i],
            #[trigger] order[i],
        ) {
            turns[i].insert(place_of(rooms, room, order[i]), order[i])
        } else {
            turns[i]
        } by {
            assert(turns[i + 1] == later[i]);
            if i > 0 {
                assert(turns[i] == later[i - 1]);
                assert(rest[i - 1] == order[i]);
                assert(later[i - 1 + 1] == later[i]);
            }
        }
        assert(turns.last() == later.last());
        turns
    }
}

/// Conflicting states are settled in two rounds. In the first, what the states agree on is put under the
/// events that decide on the powers of users, the last in their order for each key. In the second, the
/// other events have their turns along the mainline, and each that is allowed takes the place of what
/// stood at its key. At the end what the states agree on stands as it was.
pub proof fn law_settled(
    rooms: Map<Seq<char>, RoomView>,
    room: Seq<char>,
    ids: Seq<Seq<char>>,
    states: Seq<Map<(Seq<char>, Seq<char>), Seq<char>>>,
) -> (r: (Seq<Seq<char>>, Map<(Seq<char>, Seq<char>), Seq<char>>, Settlement))
    requires
        combined(rooms, room, ids, states) is Some,
    ensures
        empowers(rooms, room, ids, states, r.0, r.1),
        settles(rooms, room, ids, states, r.1, r.2),
        combined(rooms, room, ids, states)->0.room_id == room,
        forall|key: (Seq<char>, Seq<char>), id: Seq<char>| #[trigger]
            undisputed(states, key, id) ==> combined(rooms, room, ids, states)->0.map.contains_key(
                key,
            ) && combined(rooms, room, ids, states)->0.map[key] == id,
        forall|key: (Seq<char>, Seq<char>)| #[trigger]
            no_agreement(states, key) ==> ({
                let end = r.2.turns.last();
                let map = combined(rooms, room, ids, states)->0.map;
                map.contains_key(key) == end.contains_key(key) && (end.contains_key(key)
                    ==> map[key] == end[key])
            }),
{
    reveal(combined);
    let conflicted = full_conflicted(rooms, room, ids, states);
    assert forall|x: Seq<char>| #[trigger] conflicted.contains(x) == disputed(
        rooms,
        room,
        ids,
        states,
        x,
    ) by {
        lemma_disputed(rooms, room, ids, states, x);
    }
    let base = unconflicted(states);
    let power = power_events(rooms, room, conflicted);
    assert(all_found(rooms, room, power)) by {
        assert forall|x: Seq<char>| #[trigger] power.contains(x) implies find_pdu(rooms, room, x)
            is Some by {
            assert(conflicted.contains(x));
        }
    }
    lemma_finite(rooms, room, power);
    lemma_in_power_order(rooms, room, power);
    let order = power_order(rooms, room, power)->0;
    let partial = apply_power(rooms, room, base, order)->0;
    assert forall|key: (Seq<char>, Seq<char>), k: int| #[trigger]
        last_for(rooms, room, order, key, k) implies partial.contains_key(key) && partial[key]
        == order[k] by {
        lemma_apply_power(rooms, room, base, order, key);
    }
    assert forall|key: (Seq<char>, Seq<char>), id: Seq<char>|
        #![trigger undisputed(states, key, id)]
        (forall|i: int| 0 <= i < order.len() ==> !is_for(
            rooms,
            room,
            #[trigger] order[i],
            key,
        )) implies (undisputed(states, key, id) <==> partial.contains_key(key) && partial[key]
        == id) by {
        lemma_apply_power(rooms, room, base, order, key);
        lemma_unconflicted_at(states, key, id);
    }
    assert forall|x: Seq<char>| #[trigger] order.contains(x) <==> disputed(
        rooms,
        room,
        ids,
        states,
        x,
    ) && changes_powers(find_pdu(rooms, room, x)->0.pdu) by {
        assert(power.contains(x) <==> conflicted.contains(x) && is_power_pdu(
            find_pdu(rooms, room, x)->0.pdu,
        ));
        assert(conflicted.contains(x) == disputed(rooms, room, ids, states, x));
    }
    let line = mainline(rooms, room, partial[("m.room.power_levels"@, ""@)])->0;
    let plain = plain_events(rooms, room, conflicted);
    assert(all_found(rooms, room, plain)) by {
        assert forall|x: Seq<char>| #[trigger] plain.contains(x) implies find_pdu(rooms, room, x)
            is Some by {
            assert(conflicted.contains(x));
        }
    }
    lemma_finite(rooms, room, plain);
    let key = |x: Seq<char>| plain_key(rooms, room, line, x);
    lemma_key_order(plain, plain_keys(rooms, room, line, plain), key);
    let later = key_ids(sorted(plain_keys(rooms, room, line, plain)));
    assert forall|x: Seq<char>| #[trigger] later.contains(x) <==> disputed(
        rooms,
        room,
        ids,
        states,
        x,
    ) && !changes_powers(find_pdu(rooms, room, x)->0.pdu) by {
        assert(plain.contains(x) <==> conflicted.contains(x) && !is_power_pdu(
            find_pdu(rooms, room, x)->0.pdu,
        ));
        assert(conflicted.contains(x) == disputed(rooms, room, ids, states, x));
    }
    assert forall|i: int, j: int| 0 <= i < j < later.len() implies earlier_turn(
        rooms,
        room,
        line,
        #[trigger] later[i],
        #[trigger] later[j],
    ) by {
        assert(crate::state::order::key_less(key(later[i]), key(later[j])));
    }
    assert forall|i: int| 0 <= i < later.len() implies find_pdu(
        rooms,
        room,
        #[trigger] later[i],
    ) is Some by {
        assert(later.contains(later[i]));
        assert(plain.contains(later[i]));
    }
    let turns = lemma_turns(rooms, room, partial, later);
    let s = Settlement { line, order: later, turns };
    lemma_room_kept(rooms, StateView { room_id: room, map: partial }, later);
    assert forall|key: (Seq<char>, Seq<char>), id: Seq<char>| #[trigger]
        undisputed(states, key, id) implies combined(rooms, room, ids, states)->0.map.contains_key(
        key,
    ) && combined(rooms, room, ids, states)->0.map[key] == id by {
        lemma_unconflicted_at(states, key, id);
    }
    assert forall|key: (Seq<char>, Seq<char>)| #[trigger] no_agreement(states, key) implies ({
        let end = turns.last();
        let map = combined(rooms, room, ids, states)->0.map;
        map.contains_key(key) == end.contains_key(key) && (end.contains_key(key) ==> map[key]
            == end[key])
    }) by {
        if base.contains_key(key) {
            lemma_unconflicted_at(states, key, base[key]);
            assert(undisputed(states, key, base[key]));
        }
    }
    (order, partial, s)
}

proof fn lemma_room_kept(
    rooms: Map<Seq<char>, RoomView>,
    state: StateView,
    order: Seq<Seq<char>>,
)
    ensures
        apply_plain(rooms, state, order) is Some ==> apply_plain(rooms, state, order)->0.room_id
            == state.room_id,
    decreases order.len(),
{
    if order.len() > 0 {
        let e = find_pdu(rooms, state.room_id, order[0])->0;
        lemma_room_kept(rooms, state, order.drop_first());
        lemma_room_kept(rooms, with_event(state, e), order.drop_first());
    }
}

/// Of the events that the states do not agree on, one that is allowed at its turn stands against all
/// that had theirs before it for the same key: what stands at the end is it, or one that was allowed
/// later. At the same place of the mainline the later event stands.
pub proof fn law_later_stands(
    rooms: Map<Seq<char>, RoomView>,
    room: Seq<char>,
    ids: Seq<Seq<char>>,
    states: Seq<Map<(Seq<char>, Seq<char>), Seq<char>>>,
    partial: Map<(Seq<char>, Seq<char>), Seq<char>>,
    s: Settlement,
    k: int,
)
    requires
        settles(rooms, room, ids, states, partial, s),
        0 <= k < s.order.len(),
        allowed_in(rooms, room, s.turns[k], s.order[k]),
    ensures
        ({
            let key = place_of(rooms, room, s.order[k]);
            let end = s.turns.last();
            &&& end.contains_key(key)
            &&& end[key] == s.order[k] || (exists|m: int|
                k < m < s.order.len() && end[key] == #[trigger] s.order[m] && place_of(
                    rooms,
                    room,
                    s.order[m],
                ) == key && allowed_in(rooms, room, s.turns[m], s.order[m]))
            &&& forall|x: Seq<char>|
                disputed(rooms, room, ids, states, x) && !changes_powers(
                    find_pdu(rooms, room, x)->0.pdu,
                ) && #[trigger] earlier_turn(rooms, room, s.line, x, s.order[k]) ==> end[key] != x
        }),
{
    let key = place_of(rooms, room, s.order[k]);
    lemma_stands(rooms, room, ids, states, partial, s, k, s.order.len() as int);
    let end = s.turns.last();
    let m = choose|m: int|
        k <= m < s.order.len() && end[key] == #[trigger] s.order[m] && place_of(
            rooms,
            room,
            s.order[m],
        ) == key && allowed_in(rooms, room, s.turns[m], s.order[m]);
    assert forall|x: Seq<char>|
        disputed(rooms, room, ids, states, x) && !changes_powers(find_pdu(rooms, room, x)->0.pdu)
            && #[trigger] earlier_turn(rooms, room, s.line, x, s.order[k]) implies end[key] != x by {
        assert(s.order.contains(x));
        if end[key] == x {
            if m == k {
                crate::text::lemma_lex_irreflexive(x);
            } else {
                assert(earlier_turn(rooms, room, s.line, s.order[k], s.order[m]));
                if lex_less(s.order[k], x) && lex_less(x, s.order[k]) {
                    crate::text::lemma_lex_transitive(x, s.order[k], x);
                    crate::text::lemma_lex_irreflexive(x);
                }
            }
        }
    }
}

proof fn lemma_stands(
    rooms: Map<Seq<char>, RoomView>,
    room: Seq<char>,
    ids: Seq<Seq<char>>,
    states: Seq<Map<(Seq<char>, Seq<char>), Seq<char>>>,
    partial: Map<(Seq<char>, Seq<char>), Seq<char>>,
    s: Settlement,
    k: int,
    n: int,
)
    requires
        settles(rooms, room, ids, states, partial, s),
        0 <= k < n <= s.order.len(),
        allowed_in(rooms, room, s.turns[k], s.order[k]),
    ensures
        s.turns[n].contains_key(place_of(rooms, room, s.order[k])),
        exists|m: int|
            k <= m < n && s.turns[n][place_of(rooms, room, s.order[k])] == #[trigger] s.order[m]
                && place_of(rooms, room, s.order[m]) == place_of(rooms, room, s.order[k])
                && allowed_in(rooms, room, s.turns[m], s.order[m]),
    decreases n,
{
    let key = place_of(rooms, room, s.order[k]);
    assert(s.order[n - 1] == s.order[n - 1]);
    if n == k + 1 {
        assert(s.turns[n][key] == s.order[k]);
    } else {
        lemma_stands(rooms, room, ids, states, partial, s, k, n - 1);
        let m = choose|m: int|
            k <= m < n - 1 && s.turns[n - 1][key] == #[trigger] s.order[m] && place_of(
                rooms,
                room,
                s.order[m],
            ) == key && allowed_in(rooms, room, s.turns[m], s.order[m]);
        if allowed_in(rooms, room, s.turns[n - 1], s.order[n - 1]) && place_of(
            rooms,
            room,
            s.order[n - 1],
        ) == key {
            assert(s.turns[n][key] == s.order[n - 1]);
        } else {
            assert(s.turns[n][key] == s.order[m]);
        }
    }
}

/// Nothing gets into the resolved state from elsewhere: at each key stands what the states agree on, or
/// an event that had to be settled and that is for this key.
pub proof fn law_nothing_invented(
    rooms: Map<Seq<char>, RoomView>,
    room: Seq<char>,
    ids: Seq<Seq<char>>,
    states: Seq<Map<(Seq<char>, Seq<char>), Seq<char>>>,
    key: (Seq<char>, Seq<char>),
)
    requires
        combined(rooms, room, ids, states) is Some,
        combined(rooms, room, ids, states)->0.map.contains_key(key),
    ensures
        ({
            let id = combined(rooms, room, ids, states)->0.map[key];
            undisputed(states, key, id) || (disputed(rooms, room, ids, states, id) && is_for(
                rooms,
                room,
                id,
                key,
            ))
        }),
{
    let (order, partial, s) = law_settled(rooms, room, ids, states);
    let map = combined(rooms, room, ids, states)->0.map;
    assert(map.contains_key(key));
    if no_agreement(states, key) {
        lemma_from(rooms, room, ids, states, partial, s, key, s.order.len() as int);
        let id = map[key];
        assert(id == s.turns.last()[key]);
        if !(exists|m: int| 0 <= m < s.order.len() && #[trigger] s.order[m] == id && is_for(
            rooms,
            room,
            id,
            key,
        )) {
            assert(partial.contains_key(key) && partial[key] == id);
            if exists|i: int| 0 <= i < order.len() && is_for(rooms, room, #[trigger] order[i], key) {
                let i = choose|i: int|
                    0 <= i < order.len() && is_for(rooms, room, #[trigger] order[i], key);
                let k = lemma_last(rooms, room, order, key, i);
                assert(last_for(rooms, room, order, key, k));
                assert(order.contains(order[k]));
            } else {
                assert(undisputed(states, key, id));
            }
        } else {
            assert(s.order.contains(id));
        }
    } else {
        let id = choose|id: Seq<char>| undisputed(states, key, id);
        assert(undisputed(states, key, id));
    }
}

proof fn lemma_last(
    rooms: Map<Seq<char>, RoomView>,
    room: Seq<char>,
    order: Seq<Seq<char>>,
    key: (Seq<char>, Seq<char>),
    i: int,
) -> (k: int)
    requires
        0 <= i < order.len(),
        is_for(rooms, room, order[i], key),
    ensures
        last_for(rooms, room, order, key, k),
    decreases order.len() - i,
{
    if exists|j: int| i < j < order.len() && is_for(rooms, room, #[trigger] order[j], key) {
        let j = choose|j: int| i < j < order.len() && is_for(rooms, room, #[trigger] order[j], key);
        lemma_last(rooms, room, order, key, j)
    } else {
        i
    }
}

proof fn lemma_from(
    rooms: Map<Seq<char>, RoomView>,
    room: Seq<char>,
    ids: Seq<Seq<char>>,
    states: Seq<Map<(Seq<char>, Seq<char>), Seq<char>>>,
    partial: Map<(Seq<char>, Seq<char>), Seq<char>>,
    s: Settlement,
    key: (Seq<char>, Seq<char>),
    n: int,
)
    requires
        settles(rooms, room, ids, states, partial, s),
        0 <= n <= s.order.len(),
        s.turns[n].contains_key(key),
    ensures
        (partial.contains_key(key) && s.turns[n][key] == partial[key]) || (exists|m: int|
            0 <= m < n && #[trigger] s.order[m] == s.turns[n][key] && is_for(
                rooms,
                room,
                s.order[m],
                key,
            )),
    decreases n,
{
    if n > 0 {
        assert(s.order[n - 1] == s.order[n - 1]);
        if allowed_in(rooms, room, s.turns[n - 1], s.order[n - 1]) && place_of(
            rooms,
            room,
            s.order[n - 1],
        ) == key {
            assert(s.order[n - 1] == s.turns[n][key]);
        } else {
            lemma_from(rooms, room, ids, states, partial, s, key, n - 1);
        }
    }
}

/// The state after several events is what the states after each of them are settled into.
pub proof fn law_several_resolved(
    rooms: Map<Seq<char>, RoomView>,
    room: Seq<char>,
    ids: Seq<Seq<char>>,
    states: Seq<Map<(Seq<char>, Seq<char>), Seq<char>>>,
)
    requires
        states.len() == ids.len(),
        exists|i: int, j: int|
            0 <= i < ids.len() && 0 <= j < ids.len() && #[trigger] ids[i] != #[trigger] ids[j],
        forall|i: int|
            0 <= i < ids.len() ==> (#[trigger] resolved(rooms, room, seq![ids[i]])) is Some
                && resolved(rooms, room, seq![ids[i]])->0.map == states[i],
    ensures
        resolved(rooms, room, ids) == combined(rooms, room, ids, states),
{
    let (i, j) = choose|i: int, j: int|
        0 <= i < ids.len() && 0 <= j < ids.len() && #[trigger] ids[i] != #[trigger] ids[j];
    assert(!names_one(ids)) by {
        if names_one(ids) {
            assert(ids[i] == ids[0] && ids[j] == ids[0]);
        }
    }
    lemma_combined(rooms, room, ids, states);
}

/// An event changes the state by what it is: a state event that was allowed takes its place, and every
/// other event leaves the state as it was.
pub proof fn law_state_after_event(
    rooms: Map<Seq<char>, RoomView>,
    room: Seq<char>,
    id: Seq<char>,
)
    requires
        find_pdu(rooms, room, id) is Some,
        resolved(rooms, room, find_pdu(rooms, room, id)->0.pdu.prev_events) is Some,
    ensures
        ({
            let e = find_pdu(rooms, room, id)->0;
            let before = resolved(rooms, room, e.pdu.prev_events)->0;
            let after = resolved(rooms, room, seq![id]);
            &&& after is Some && after->0.room_id == before.room_id
            &&& e.passed && e.pdu.state_key is Some ==> after->0.map == before.map.insert(
                (e.pdu.content.label(), e.pdu.state_key->0),
                id,
            )
            &&& !(e.passed && e.pdu.state_key is Some) ==> after->0.map == before.map
        }),
{
    crate::state::rules::law_resolved_one(rooms, room, id);
    lemma_found_id(rooms, room, id);
}

/// The auth chain of an event is made of the events that it cites and of their auth chains.
pub proof fn law_auth_chain(
    rooms: Map<Seq<char>, RoomView>,
    room: Seq<char>,
    a: Seq<char>,
    x: Seq<char>,
)
    ensures
        in_chain(rooms, room, a, x) <==> find_pdu(rooms, room, a) is Some && exists|i: int|
            0 <= i < find_pdu(rooms, room, a)->0.pdu.auth_events.len() && ({
                let mid = #[trigger] find_pdu(rooms, room, a)->0.pdu.auth_events[i];
                mid == x || in_chain(rooms, room, mid, x)
            }),
{
    if in_chain(rooms, room, a, x) {
        let steps = choose|steps: nat| steps > 0 && #[trigger] leads(rooms, room, a, x, steps);
        let mid = choose|mid: Seq<char>| #[trigger]
            cites(rooms, room, a, mid) && leads(rooms, room, mid, x, (steps - 1) as nat);
        assert(cites(rooms, room, a, mid));
        let cited = find_pdu(rooms, room, a)->0.pdu.auth_events;
        let i = choose|i: int| 0 <= i < cited.len() && cited[i] == mid;
        assert(cited[i] == mid);
        if steps > 1 {
            assert(leads(rooms, room, mid, x, (steps - 1) as nat));
            assert(in_chain(rooms, room, mid, x));
        }
    }
    if find_pdu(rooms, room, a) is Some {
        let cited = find_pdu(rooms, room, a)->0.pdu.auth_events;
        if exists|i: int|
            0 <= i < cited.len() && ({
                let mid = #[trigger] cited[i];
                mid == x || in_chain(rooms, room, mid, x)
            }) {
            let i = choose|i: int|
                0 <= i < cited.len() && ({
                    let mid = #[trigger] cited[i];
                    mid == x || in_chain(rooms, room, mid, x)
                });
            let mid = cited[i];
            assert(cites(rooms, room, a, mid));
            if mid == x {
                assert(leads(rooms, room, mid, x, 0));
                assert(leads(rooms, room, a, x, 1));
            } else {
                let steps = choose|steps: nat|
                    steps > 0 && #[trigger] leads(rooms, room, mid, x, steps);
                assert(leads(rooms, room, a, x, steps + 1));
            }
        }
    }
}

/// Whether an item of a list of cited events is the first power levels event in it.
pub open spec fn first_levels_at(
    rooms: Map<Seq<char>, RoomView>,
    room: Seq<char>,
    cited: Seq<Seq<char>>,
    i: int,
) -> bool {
    &&& 0 <= i < cited.len()
    &&& find_pdu(rooms, room, cited[i]) is Some
    &&& find_pdu(rooms, room, cited[i])->0.pdu.content is PowerLevels
    &&& none_levels(rooms, room, cited.take(i))
}

/// Whether all of some cited events are there, and none is a power levels event.
pub open spec fn none_levels(
    rooms: Map<Seq<char>, RoomView>,
    room: Seq<char>,
    cited: Seq<Seq<char>>,
) -> bool {
    forall|j: int|
        0 <= j < cited.len() ==> find_pdu(rooms, room, #[trigger] cited[j]) is Some && !(find_pdu(
            rooms,
            room,
            cited[j],
        )->0.pdu.content is PowerLevels)
}

proof fn lemma_first_levels(
    rooms: Map<Seq<char>, RoomView>,
    room: Seq<char>,
    cited: Seq<Seq<char>>,
)
    ensures
        match first_levels(rooms, room, cited) {
            Some(Some(id)) => exists|i: int|
                #[trigger] first_levels_at(rooms, room, cited, i) && cited[i] == id,
            Some(None) => none_levels(rooms, room, cited),
            None => true,
        },
    decreases cited.len(),
{
    if cited.len() > 0 {
        let rest = cited.drop_first();
        lemma_first_levels(rooms, room, rest);
        match first_levels(rooms, room, cited) {
            Some(Some(id)) => {
                if id == cited[0] && find_pdu(rooms, room, cited[0])->0.pdu.content is PowerLevels {
                    assert(first_levels_at(rooms, room, cited, 0));
                } else {
                    let i = choose|i: int|
                        #[trigger] first_levels_at(rooms, room, rest, i) && rest[i] == id;
                    assert(cited[i + 1] == id);
                    assert forall|j: int| 0 <= j < i + 1 implies find_pdu(
                        rooms,
                        room,
                        #[trigger] cited.take(i + 1)[j],
                    ) is Some && !(find_pdu(rooms, room, cited.take(i + 1)[j])->0.pdu.content
                        is PowerLevels) by {
                        if j > 0 {
                            assert(rest.take(i)[j - 1] == cited.take(i + 1)[j]);
                        }
                    }
                    assert(first_levels_at(rooms, room, cited, i + 1));
                }
            },
            Some(None) => {
                assert forall|j: int| 0 <= j < cited.len() implies find_pdu(
                    rooms,
                    room,
                    #[trigger] cited[j],
                ) is Some && !(find_pdu(rooms, room, cited[j])->0.pdu.content is PowerLevels) by {
                    if j > 0 {
                        assert(rest[j - 1] == cited[j]);
                    }
                }
            },
            None => {},
        }
    }
}

/// The mainline begins with the power levels event, leads from each event to the first power levels event
/// that it cites, and ends with one that cites none.
pub proof fn law_mainline(
    rooms: Map<Seq<char>, RoomView>,
    room: Seq<char>,
    start: Seq<char>,
)
    requires
        mainline(rooms, room, start) is Some,
    ensures
        ({
            let line = mainline(rooms, room, start)->0;
            &&& line.len() > 0 && line[0] == start
            &&& forall|i: int|
                0 <= i < line.len() ==> find_pdu(rooms, room, #[trigger] line[i]) is Some
            &&& forall|i: int|
                0 <= i < line.len() - 1 ==> ({
                    let cited = find_pdu(rooms, room, #[trigger] line[i])->0.pdu.auth_events;
                    exists|k: int| #[trigger]
                        first_levels_at(rooms, room, cited, k) && cited[k] == line[i + 1]
                })
            &&& none_levels(rooms, room, find_pdu(rooms, room, line.last())->0.pdu.auth_events)
        }),
{
    let steps = choose|steps: nat| #[trigger] mainline_within(rooms, room, start, steps) is Some;
    assert(mainline_within(rooms, room, start, steps) is Some);
    lemma_mainline_within(rooms, room, start, steps);
}

proof fn lemma_mainline_within(
    rooms: Map<Seq<char>, RoomView>,
    room: Seq<char>,
    start: Seq<char>,
    steps: nat,
)
    requires
        mainline_within(rooms, room, start, steps) is Some,
    ensures
        ({
            let line = mainline_within(rooms, room, start, steps)->0;
            &&& line.len() > 0 && line[0] == start
            &&& forall|i: int|
                0 <= i < line.len() ==> find_pdu(rooms, room, #[trigger] line[i]) is Some
            &&& forall|i: int|
                0 <= i < line.len() - 1 ==> ({
                    let cited = find_pdu(rooms, room, #[trigger] line[i])->0.pdu.auth_events;
                    exists|k: int| #[trigger]
                        first_levels_at(rooms, room, cited, k) && cited[k] == line[i + 1]
                })
            &&& none_levels(rooms, room, find_pdu(rooms, room, line.last())->0.pdu.auth_events)
        }),
    decreases steps,
{
    let line = mainline_within(rooms, room, start, steps)->0;
    lemma_first_levels(rooms, room, find_pdu(rooms, room, start)->0.pdu.auth_events);
    match cited_levels(rooms, room, start) {
        Some(Some(parent)) => {
            lemma_mainline_within(rooms, room, parent, (steps - 1) as nat);
            let rest = mainline_within(rooms, room, parent, (steps - 1) as nat)->0;
            assert(line == seq![start] + rest);
            assert forall|i: int| 0 <= i < line.len() implies find_pdu(
                rooms,
                room,
                #[trigger] line[i],
            ) is Some by {
                if i > 0 {
                    assert(line[i] == rest[i - 1]);
                }
            }
            assert forall|i: int| 0 <= i < line.len() - 1 implies ({
                let cited = find_pdu(rooms, room, #[trigger] line[i])->0.pdu.auth_events;
                exists|k: int| #[trigger]
                    first_levels_at(rooms, room, cited, k) && cited[k] == line[i + 1]
            }) by {
                assert(line[i + 1] == rest[i]);
                if i > 0 {
                    assert(line[i] == rest[i - 1]);
                    assert(rest[i - 1 + 1] == rest[i]);
                }
            }
            assert(line.last() == rest.last());
        },
        _ => {},
    }
}

/// An event in the mainline has the position where it first stands there. Any other has that of the first
/// power levels event that it cites, and none where it cites none.
pub proof fn law_closest(
    rooms: Map<Seq<char>, RoomView>,
    room: Seq<char>,
    line: Seq<Seq<char>>,
    id: Seq<char>,
)
    requires
        closest(rooms, room, line, id) is Some,
    ensures
        ({
            let found = closest(rooms, room, line, id)->0;
            let cited = find_pdu(rooms, room, id)->0.pdu.auth_events;
            &&& line.contains(id) ==> (found matches Some(i) && 0 <= i < line.len() && line[i] == id
                && forall|j: int| 0 <= j < i ==> #[trigger] line[j] != id)
            &&& !line.contains(id) ==> find_pdu(rooms, room, id) is Some && ((none_levels(
                rooms,
                room,
                cited,
            ) && found is None) || (exists|k: int| #[trigger]
                first_levels_at(rooms, room, cited, k) && closest(rooms, room, line, cited[k])
                    == Some(found)))
        }),
{
    let steps = choose|steps: nat| #[trigger]
        closest_within(rooms, room, line, id, steps) is Some;
    assert(closest_within(rooms, room, line, id, steps) is Some);
    if line.contains(id) {
        lemma_first(line, id, 0);
        assert(exists|i: int| is_first(line, id, i));
    } else {
        let cited = find_pdu(rooms, room, id)->0.pdu.auth_events;
        lemma_first_levels(rooms, room, cited);
        match cited_levels(rooms, room, id) {
            Some(Some(parent)) => {
                let k = choose|k: int| #[trigger]
                    first_levels_at(rooms, room, cited, k) && cited[k] == parent;
                lemma_closest(rooms, room, line, parent, (steps - 1) as nat);
                assert(first_levels_at(rooms, room, cited, k));
            },
            _ => {},
        }
    }
}

proof fn lemma_first(line: Seq<Seq<char>>, id: Seq<char>, from: int)
    requires
        line.contains(id),
        0 <= from <= line.len(),
        forall|j: int| 0 <= j < from ==> #[trigger] line[j] != id,
    ensures
        exists|i: int| is_first(line, id, i),
    decreases line.len() - from,
{
    let at = choose|i: int| 0 <= i < line.len() && line[i] == id;
    if from < line.len() {
        if line[from] == id {
            assert(is_first(line, id, from));
        } else {
            lemma_first(line, id, from + 1);
        }
    }
}

/// The level of the sender of an event is what the first power levels event that it cites says, and where
/// it cites none, 100 for the creator that the create event names, and 0 for others.
pub proof fn law_sender_level(
    rooms: Map<Seq<char>, RoomView>,
    room: Seq<char>,
    id: Seq<char>,
    i: int,
)
    requires
        find_pdu(rooms, room, id) is Some,
    ensures
        ({
            let e = find_pdu(rooms, room, id)->0.pdu;
            let cited = e.auth_events;
            &&& first_levels_at(rooms, room, cited, i) ==> ({
                let levels = find_pdu(rooms, room, cited[i])->0.pdu.content->PowerLevels_0;
                sender_level(rooms, room, id) == Some(
                    if levels.users.contains_key(e.sender) {
                        levels.users[e.sender]
                    } else {
                        levels.users_level()
                    },
                )
            })
            &&& none_levels(rooms, room, cited) && 0 <= i < cited.len() && (find_pdu(
                rooms,
                room,
                cited[i],
            )->0.pdu.content is Create) && (forall|j: int|
                i < j < cited.len() ==> !(find_pdu(rooms, room, #[trigger] cited[j])->0.pdu.content
                    is Create)) ==> sender_level(rooms, room, id) == Some(
                if find_pdu(rooms, room, cited[i])->0.pdu.content->Create_0.creator == e.sender {
                    100u32
                } else {
                    0u32
                },
            )
            &&& none_levels(rooms, room, cited) && (forall|j: int|
                0 <= j < cited.len() ==> !(find_pdu(rooms, room, #[trigger] cited[j])->0.pdu.content
                    is Create)) ==> sender_level(rooms, room, id) is None
        }),
{
    let e = find_pdu(rooms, room, id)->0.pdu;
    lemma_level_by(rooms, room, e.sender, e.auth_events, None, i);
}

proof fn lemma_level_by(
    rooms: Map<Seq<char>, RoomView>,
    room: Seq<char>,
    sender: Seq<char>,
    cited: Seq<Seq<char>>,
    creator: Option<Seq<char>>,
    i: int,
)
    ensures
        first_levels_at(rooms, room, cited, i) ==> level_by(rooms, room, sender, cited, creator)
            == Some(
            find_pdu(rooms, room, cited[i])->0.pdu.content->PowerLevels_0.user_level(sender),
        ),
        none_levels(rooms, room, cited) && 0 <= i < cited.len() && (find_pdu(
            rooms,
            room,
            cited[i],
        )->0.pdu.content is Create) && (forall|j: int|
            i < j < cited.len() ==> !(find_pdu(rooms, room, #[trigger] cited[j])->0.pdu.content
                is Create)) ==> level_by(rooms, room, sender, cited, creator) == Some(
            if find_pdu(rooms, room, cited[i])->0.pdu.content->Create_0.creator == sender {
                100u32
            } else {
                0u32
            },
        ),
        none_levels(rooms, room, cited) && (forall|j: int|
            0 <= j < cited.len() ==> !(find_pdu(rooms, room, #[trigger] cited[j])->0.pdu.content
                is Create)) ==> level_by(rooms, room, sender, cited, creator) == (match creator {
            Some(c) => Some(
                if c == sender {
                    100u32
                } else {
                    0u32
                },
            ),
            None => None,
        }),
    decreases cited.len(),
{
    if cited.len() > 0 {
        let rest = cited.drop_first();
        let next = match find_pdu(rooms, room, cited[0])->0.pdu.content {
            ContentView::Create(create) => Some(create.creator),
            _ => creator,
        };
        lemma_level_by(rooms, room, sender, rest, next, i - 1);
        if first_levels_at(rooms, room, cited, i) && i > 0 {
            assert(cited.take(i)[0] == cited[0]);
            assert forall|j: int| 0 <= j < i - 1 implies find_pdu(
                rooms,
                room,
                #[trigger] rest.take(i - 1)[j],
            ) is Some && !(find_pdu(rooms, room, rest.take(i - 1)[j])->0.pdu.content
                is PowerLevels) by {
                assert(rest.take(i - 1)[j] == cited.take(i)[j + 1]);
            }
            assert(rest[i - 1] == cited[i]);
            assert(first_levels_at(rooms, room, rest, i - 1));
        }
        if none_levels(rooms, room, cited) {
            assert(find_pdu(rooms, room, cited[0]) is Some);
            assert forall|j: int| 0 <= j < rest.len() implies find_pdu(
                rooms,
                room,
                #[trigger] rest[j],
            ) is Some && !(find_pdu(rooms, room, rest[j])->0.pdu.content is PowerLevels) && (
            find_pdu(rooms, room, rest[j])->0.pdu.content is Create == (find_pdu(
                rooms,
                room,
                cited[j + 1],
            )->0.pdu.content is Create)) by {
                assert(rest[j] == cited[j + 1]);
            }
        }
    }
}

/// An event that has its turn is held against what has been settled so far. Only for what is missing
/// there, and only for what the rules look at, the events that it cites count.
pub proof fn law_held_against(
    rooms: Map<Seq<char>, RoomView>,
    state: StateView,
    pdu: PduView,
    key: (Seq<char>, Seq<char>),
)
    ensures
        ({
            let base = plain_base(rooms, state, pdu);
            let looked_at = key == ("m.room.create"@, ""@) || key == ("m.room.power_levels"@, ""@)
                || key == ("m.room.member"@, pdu.sender) || (pdu.content matches ContentView::Member(
                m,
            ) && (key == ("m.room.member"@, pdu.state_key->0) || (key == (
                "m.room.join_rules"@,
                ""@,
            ) && (m.membership == Membership::Join || m.membership == Membership::Invite))));
            &&& base.room_id == state.room_id
            &&& state.map.contains_key(key) ==> base.map.contains_key(key) && base.map[key]
                == state.map[key]
            &&& !state.map.contains_key(key) && base.map.contains_key(key) ==> looked_at
                && pdu.auth_events.contains(base.map[key]) && find_pdu(
                rooms,
                state.room_id,
                base.map[key],
            ) is Some && is_for(rooms, state.room_id, base.map[key], key)
            &&& looked_at && pdu.content.label() != "m.room.create"@ && !base.map.contains_key(key)
                ==> forall|i: int|
                0 <= i < pdu.auth_events.len() ==> !(find_pdu(
                    rooms,
                    state.room_id,
                    #[trigger] pdu.auth_events[i],
                ) is Some && is_for(rooms, state.room_id, pdu.auth_events[i], key))
        }),
{
    lemma_first_state(rooms, state.room_id, pdu.auth_events, key);
}

proof fn lemma_first_state(
    rooms: Map<Seq<char>, RoomView>,
    room: Seq<char>,
    ids: Seq<Seq<char>>,
    key: (Seq<char>, Seq<char>),
)
    ensures
        match first_state(rooms, room, ids, key) {
            Some(id) => ids.contains(id) && find_pdu(rooms, room, id) is Some && is_for(
                rooms,
                room,
                id,
                key,
            ),
            None => forall|i: int|
                0 <= i < ids.len() ==> !(find_pdu(rooms, room, #[trigger] ids[i]) is Some && is_for(
                    rooms,
                    room,
                    ids[i],
                    key,
                )),
        },
    decreases ids.len(),
{
    if ids.len() > 0 {
        let rest = ids.drop_first();
        lemma_first_state(rooms, room, rest, key);
        match first_state(rooms, room, ids, key) {
            Some(id) => {
                if rest.contains(id) {
                    let i = choose|i: int| 0 <= i < rest.len() && rest[i] == id;
                    assert(ids[i + 1] == id);
                } else {
                    assert(ids[0] == id);
                }
            },
            None => {
                assert forall|i: int| 0 <= i < ids.len() implies !(find_pdu(
                    rooms,
                    room,
                    #[trigger] ids[i],
                ) is Some && is_for(rooms, room, ids[i], key)) by {
                    if i > 0 {
                        assert(rest[i - 1] == ids[i]);
                    }
                }
            },
        }
    }
}

/// Whether the rules can tell of an event whether it is allowed, whatever has been settled before it.
pub open spec fn always_decided(
    rooms: Map<Seq<char>, RoomView>,
    room: Seq<char>,
    id: Seq<char>,
) -> bool {
    let pdu = find_pdu(rooms, room, id)->0.pdu;
    forall|map: Map<(Seq<char>, Seq<char>), Seq<char>>|
        auth_rules(rooms, pdu, #[trigger] plain_base(rooms, StateView { room_id: room, map }, pdu))
            is Some
}

/// Where branches do not disagree on the powers of users, and all events that have to be settled are there
/// with their auth chains, their places in the mainline and a verdict at their turns, the branches can be
/// settled.
pub proof fn law_plain_fork_known(
    rooms: Map<Seq<char>, RoomView>,
    room: Seq<char>,
    ids: Seq<Seq<char>>,
    states: Seq<Map<(Seq<char>, Seq<char>), Seq<char>>>,
    levels: Seq<char>,
)
    requires
        forall|i: int, x: Seq<char>, steps: nat|
            0 <= i < ids.len() && #[trigger] leads(rooms, room, ids[i], x, steps) ==> find_pdu(
                rooms,
                room,
                x,
            ) is Some,
        forall|x: Seq<char>| #[trigger]
            disputed(rooms, room, ids, states, x) ==> find_pdu(rooms, room, x) is Some
                && !changes_powers(find_pdu(rooms, room, x)->0.pdu),
        undisputed(states, ("m.room.power_levels"@, ""@), levels),
        mainline(rooms, room, levels) is Some,
        forall|x: Seq<char>| #[trigger]
            disputed(rooms, room, ids, states, x) ==> closest(
                rooms,
                room,
                mainline(rooms, room, levels)->0,
                x,
            ) is Some && always_decided(rooms, room, x),
    ensures
        combined(rooms, room, ids, states) is Some,
{
    reveal(combined);
    let conflicted = full_conflicted(rooms, room, ids, states);
    assert forall|x: Seq<char>| #[trigger] conflicted.contains(x) == disputed(
        rooms,
        room,
        ids,
        states,
        x,
    ) by {
        lemma_disputed(rooms, room, ids, states, x);
    }
    assert forall|i: int| 0 <= i < ids.len() implies crate::state::chain::chain_complete(
        rooms,
        room,
        #[trigger] ids[i],
    ) by {
        assert forall|x: Seq<char>, steps: nat| #[trigger]
            leads(rooms, room, ids[i], x, steps) implies find_pdu(rooms, room, x) is Some by {}
    }
    let base = unconflicted(states);
    lemma_unconflicted_at(states, ("m.room.power_levels"@, ""@), levels);
    let power = power_events(rooms, room, conflicted);
    assert(power =~= Set::empty());
    assert(power_order(rooms, room, power) == Some(Seq::<Seq<char>>::empty()));
    assert(apply_power(rooms, room, base, Seq::empty()) == Some(base));
    let line = mainline(rooms, room, levels)->0;
    let plain = plain_events(rooms, room, conflicted);
    assert(all_found(rooms, room, plain)) by {
        assert forall|x: Seq<char>| #[trigger] plain.contains(x) implies find_pdu(rooms, room, x)
            is Some by {
            assert(conflicted.contains(x));
        }
    }
    lemma_finite(rooms, room, plain);
    let key = |x: Seq<char>| plain_key(rooms, room, line, x);
    lemma_key_order(plain, plain_keys(rooms, room, line, plain), key);
    let order = key_ids(sorted(plain_keys(rooms, room, line, plain)));
    assert forall|i: int| 0 <= i < order.len() implies always_decided(
        rooms,
        room,
        #[trigger] order[i],
    ) by {
        assert(order.contains(order[i]));
        assert(conflicted.contains(order[i]));
    }
    lemma_decided(rooms, room, base, order);
    assert forall|x: Seq<char>| #[trigger] plain.contains(x) implies closest(
        rooms,
        room,
        line,
        x,
    ) is Some by {
        assert(conflicted.contains(x));
    }
}

proof fn lemma_decided(
    rooms: Map<Seq<char>, RoomView>,
    room: Seq<char>,
    map: Map<(Seq<char>, Seq<char>), Seq<char>>,
    order: Seq<Seq<char>>,
)
    requires
        forall|i: int| 0 <= i < order.len() ==> always_decided(rooms, room, #[trigger] order[i]),
    ensures
        apply_plain(rooms, StateView { room_id: room, map }, order) is Some,
    decreases order.len(),
{
    if order.len() > 0 {
        let rest = order.drop_first();
        assert forall|i: int| 0 <= i < rest.len() implies always_decided(
            rooms,
            room,
            #[trigger] rest[i],
        ) by {
            assert(rest[i] == order[i + 1]);
        }
        assert(always_decided(rooms, room, order[0]));
        let e = find_pdu(rooms, room, order[0])->0;
        let state = StateView { room_id: room, map };
        assert(auth_rules(rooms, e.pdu, plain_base(rooms, state, e.pdu)) is Some);
        lemma_decided(rooms, room, map, rest);
        let next = with_event(state, e);
        assert(next == (StateView { room_id: room, map: next.map }));
        lemma_decided(rooms, room, next.map, rest);
    }
}

/// Of the cited events that are for a key which is missing in the state, the first counts.
pub proof fn law_first_cited_counts(
    rooms: Map<Seq<char>, RoomView>,
    state: StateView,
    pdu: PduView,
    key: (Seq<char>, Seq<char>),
    i: int,
)
    requires
        !state.map.contains_key(key),
        plain_base(rooms, state, pdu).map.contains_key(key),
        0 <= i < pdu.auth_events.len(),
        find_pdu(rooms, state.room_id, pdu.auth_events[i]) is Some,
        is_for(rooms, state.room_id, pdu.auth_events[i], key),
        forall|j: int|
            0 <= j < i ==> !(find_pdu(
                rooms,
                state.room_id,
                #[trigger] pdu.auth_events[j],
            ) is Some && is_for(rooms, state.room_id, pdu.auth_events[j], key)),
    ensures
        plain_base(rooms, state, pdu).map[key] == pdu.auth_events[i],
{
    lemma_first_counts(rooms, state.room_id, pdu.auth_events, key, i);
}

proof fn lemma_first_counts(
    rooms: Map<Seq<char>, RoomView>,
    room: Seq<char>,
    ids: Seq<Seq<char>>,
    key: (Seq<char>, Seq<char>),
    i: int,
)
    requires
        0 <= i < ids.len(),
        find_pdu(rooms, room, ids[i]) is Some,
        is_for(rooms, room, ids[i], key),
        forall|j: int|
            0 <= j < i ==> !(find_pdu(rooms, room, #[trigger] ids[j]) is Some && is_for(
                rooms,
                room,
                ids[j],
                key,
            )),
    ensures
        first_state(rooms, room, ids, key) == Some(ids[i]),
    decreases ids.len(),
{
    if i > 0 {
        let rest = ids.drop_first();
        assert(!(find_pdu(rooms, room, ids[0]) is Some && is_for(rooms, room, ids[0], key)));
        assert(rest[i - 1] == ids[i]);
        assert forall|j: int| 0 <= j < i - 1 implies !(find_pdu(
            rooms,
            room,
            #[trigger] rest[j],
        ) is Some && is_for(rooms, room, rest[j], key)) by {
            assert(rest[j] == ids[j + 1]);
        }
        lemma_first_counts(rooms, room, rest, key, i - 1);
    }
}

} // verus!
