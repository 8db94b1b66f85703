//! What holds of every resolution of conflicting states.
use crate::state::chain::{auth_difference, chain_complete, chains_complete, in_chain};
use crate::state::resolver::{lemma_branch_unknown, lemma_combined, lemma_one};
use crate::state::order::{key_less, law_key_irreflexive, law_key_total, law_key_transitive};
use crate::state::rules::{
    agreed, closest, combined, full_conflicted, is_conflicted, names_one, plain_key, resolved,
    unconflicted,
};
use crate::storage::{find_pdu, RoomView};
use crate::text::lex_less;
use vstd::prelude::*;

verus! {

/// What all states agree on is in the state that they resolve into.
pub proof fn law_agreement_kept(
    rooms: Map<Seq<char>, RoomView>,
    room: Seq<char>,
    ids: Seq<Seq<char>>,
    states: Seq<Map<(Seq<char>, Seq<char>), Seq<char>>>,
    i: int,
    key: (Seq<char>, Seq<char>),
)
    requires
        combined(rooms, room, ids, states) is Some,
        0 <= i < states.len(),
        states[i].contains_key(key),
        agreed(states, key),
    ensures
        combined(rooms, room, ids, states)->0.map.contains_key(key),
        combined(rooms, room, ids, states)->0.map[key] == states[i][key],
{
    reveal(combined);
    let j = choose|j: int| 0 <= j < states.len() && (#[trigger] states[j]).contains_key(key);
    assert(states[j].contains_key(key));
    assert(unconflicted(states).contains_key(key));
}

/// Whether an event with its state is named in another list with the same state.
spec fn is_branch(
    id: Seq<char>,
    state: Map<(Seq<char>, Seq<char>), Seq<char>>,
    others: Seq<Seq<char>>,
    other_states: Seq<Map<(Seq<char>, Seq<char>), Seq<char>>>,
) -> bool {
    exists|j: int| 0 <= j < others.len() && #[trigger] others[j] == id && other_states[j] == state
}

/// Whether each of some events with its state is named in another list with the same state.
spec fn same_branches(
    ids: Seq<Seq<char>>,
    states: Seq<Map<(Seq<char>, Seq<char>), Seq<char>>>,
    others: Seq<Seq<char>>,
    other_states: Seq<Map<(Seq<char>, Seq<char>), Seq<char>>>,
) -> bool {
    &&& states.len() == ids.len()
    &&& other_states.len() == others.len()
    &&& forall|i: int|
        #![trigger ids[i]]
        #![trigger states[i]]
        0 <= i < ids.len() ==> is_branch(ids[i], states[i], others, other_states)
}

proof fn lemma_agreed_same(
    ids: Seq<Seq<char>>,
    states: Seq<Map<(Seq<char>, Seq<char>), Seq<char>>>,
    others: Seq<Seq<char>>,
    other_states: Seq<Map<(Seq<char>, Seq<char>), Seq<char>>>,
    key: (Seq<char>, Seq<char>),
)
    requires
        same_branches(ids, states, others, other_states),
        same_branches(others, other_states, ids, states),
        agreed(states, key),
    ensures
        agreed(other_states, key),
        unconflicted(other_states)[key] == unconflicted(states)[key],
{
    let i = choose|i: int| 0 <= i < states.len() && (#[trigger] states[i]).contains_key(key);
    assert(states[i].contains_key(key));
    assert(ids[i] == ids[i]);
    let j = choose|j: int|
        0 <= j < others.len() && #[trigger] others[j] == ids[i] && other_states[j] == states[i];
    assert(other_states[j].contains_key(key));
    assert forall|a: int, b: int|
        0 <= a < other_states.len() && 0 <= b < other_states.len() && (
        #[trigger] other_states[a]).contains_key(key) && (#[trigger] other_states[b]).contains_key(
            key,
        ) implies other_states[a][key] == other_states[b][key] by {
        assert(others[a] == others[a] && others[b] == others[b]);
        let p = choose|p: int|
            0 <= p < ids.len() && #[trigger] ids[p] == others[a] && states[p] == other_states[a];
        let q = choose|q: int|
            0 <= q < ids.len() && #[trigger] ids[q] == others[b] && states[q] == other_states[b];
        assert(states[p].contains_key(key) && states[q].contains_key(key));
    }
    let k = choose|k: int|
        0 <= k < other_states.len() && (#[trigger] other_states[k]).contains_key(key);
    assert(other_states[k].contains_key(key));
    assert(other_states[k][key] == other_states[j][key]);
}

proof fn lemma_conflicted_same(
    ids: Seq<Seq<char>>,
    states: Seq<Map<(Seq<char>, Seq<char>), Seq<char>>>,
    others: Seq<Seq<char>>,
    other_states: Seq<Map<(Seq<char>, Seq<char>), Seq<char>>>,
    x: Seq<char>,
)
    requires
        same_branches(ids, states, others, other_states),
        same_branches(others, other_states, ids, states),
        is_conflicted(states, x),
    ensures
        is_conflicted(other_states, x),
{
    let (i, key) = choose|i: int, key: (Seq<char>, Seq<char>)|
        0 <= i < states.len() && (#[trigger] states[i].contains_key(key)) && states[i][key] == x
            && !agreed(states, key);
    assert(ids[i] == ids[i]);
    let j = choose|j: int|
        0 <= j < others.len() && #[trigger] others[j] == ids[i] && other_states[j] == states[i];
    assert(other_states[j].contains_key(key));
    if agreed(other_states, key) {
        lemma_agreed_same(others, other_states, ids, states, key);
    }
}

/// The states after each of some events.
spec fn states_after(
    rooms: Map<Seq<char>, RoomView>,
    room: Seq<char>,
    ids: Seq<Seq<char>>,
) -> Seq<Map<(Seq<char>, Seq<char>), Seq<char>>> {
    Seq::new(ids.len(), |i: int| (resolved(rooms, room, seq![ids[i]])->0).map)
}

proof fn lemma_branches(
    rooms: Map<Seq<char>, RoomView>,
    room: Seq<char>,
    ids: Seq<Seq<char>>,
    others: Seq<Seq<char>>,
)
    requires
        ids.to_set() == others.to_set(),
    ensures
        same_branches(
            ids,
            states_after(rooms, room, ids),
            others,
            states_after(rooms, room, others),
        ),
{
    let states = states_after(rooms, room, ids);
    let other_states = states_after(rooms, room, others);
    assert forall|i: int| 0 <= i < ids.len() implies is_branch(
        #[trigger] ids[i],
        states[i],
        others,
        other_states,
    ) by {
        assert(ids.to_set().contains(ids[i]));
        assert(others.contains(ids[i]));
        let k = choose|k: int| 0 <= k < others.len() && others[k] == ids[i];
        assert(others[k] == ids[i] && other_states[k] == states[i]);
    }
}

/// The state after some events does not depend on the order in which they are named, nor on how often.
pub proof fn law_order_irrelevant(
    rooms: Map<Seq<char>, RoomView>,
    room: Seq<char>,
    ids: Seq<Seq<char>>,
    others: Seq<Seq<char>>,
)
    requires
        ids.to_set() == others.to_set(),
    ensures
        resolved(rooms, room, others) == resolved(rooms, room, ids),
{
    if ids.len() == 0 {
        if others.len() > 0 {
            assert(others.to_set().contains(others[0]));
            assert(ids.contains(others[0]));
        }
        assert(ids =~= others);
    } else {
        assert(ids.to_set().contains(ids[0]));
        assert(others.contains(ids[0]));
        if names_one(ids) {
            lemma_names_one(ids, others);
            lemma_one(rooms, room, ids);
            lemma_one(rooms, room, others);
        } else if names_one(others) {
            lemma_names_one(others, ids);
        } else if exists|x: Seq<char>|
            ids.to_set().contains(x) && #[trigger] resolved(rooms, room, seq![x]) is None {
            let x = choose|x: Seq<char>|
                ids.to_set().contains(x) && #[trigger] resolved(rooms, room, seq![x]) is None;
            let i = choose|i: int| 0 <= i < ids.len() && ids[i] == x;
            let k = choose|k: int| 0 <= k < others.len() && others[k] == x;
            assert(ids.contains(x) && others.contains(x));
            lemma_branch_unknown(rooms, room, ids, i);
            lemma_branch_unknown(rooms, room, others, k);
        } else {
            lemma_several(rooms, room, ids);
            lemma_several(rooms, room, others);
            lemma_branches(rooms, room, ids, others);
            lemma_branches(rooms, room, others, ids);
            lemma_combined_same(
                rooms,
                room,
                ids,
                states_after(rooms, room, ids),
                others,
                states_after(rooms, room, others),
            );
        }
    }
}

proof fn lemma_several(rooms: Map<Seq<char>, RoomView>, room: Seq<char>, ids: Seq<Seq<char>>)
    requires
        ids.len() > 0,
        !names_one(ids),
        forall|x: Seq<char>|
            ids.to_set().contains(x) ==> #[trigger] resolved(rooms, room, seq![x]) is Some,
    ensures
        resolved(rooms, room, ids) == combined(
            rooms,
            room,
            ids,
            states_after(rooms, room, ids),
        ),
{
    assert forall|j: int| 0 <= j < ids.len() implies (#[trigger] resolved(
        rooms,
        room,
        seq![ids[j]],
    )) is Some by {
        assert(ids.to_set().contains(ids[j]));
    }
    lemma_combined(rooms, room, ids, states_after(rooms, room, ids));
}

proof fn lemma_names_one(ids: Seq<Seq<char>>, others: Seq<Seq<char>>)
    requires
        names_one(ids),
        others.len() > 0,
        ids.to_set() == others.to_set(),
    ensures
        names_one(others),
        others[0] == ids[0],
{
    assert forall|i: int| 0 <= i < others.len() implies #[trigger] others[i] == ids[0] by {
        assert(others.to_set().contains(others[i]));
        assert(ids.contains(others[i]));
        let j = choose|j: int| 0 <= j < ids.len() && ids[j] == others[i];
        assert(ids[j] == ids[0]);
    }
    assert(others[0] == ids[0]);
}

proof fn lemma_combined_same(
    rooms: Map<Seq<char>, RoomView>,
    room: Seq<char>,
    ids: Seq<Seq<char>>,
    states: Seq<Map<(Seq<char>, Seq<char>), Seq<char>>>,
    others: Seq<Seq<char>>,
    other_states: Seq<Map<(Seq<char>, Seq<char>), Seq<char>>>,
)
    requires
        same_branches(ids, states, others, other_states),
        same_branches(others, other_states, ids, states),
    ensures
        combined(rooms, room, others, other_states) == combined(rooms, room, ids, states),
{
    reveal(combined);
    assert(unconflicted(other_states) =~= unconflicted(states)) by {
        assert forall|key: (Seq<char>, Seq<char>)| #[trigger]
            agreed(other_states, key) == agreed(states, key) && (agreed(states, key)
                ==> unconflicted(other_states)[key] == unconflicted(states)[key]) by {
            if agreed(states, key) {
                lemma_agreed_same(ids, states, others, other_states, key);
            }
            if agreed(other_states, key) {
                lemma_agreed_same(others, other_states, ids, states, key);
            }
        }
    }
    assert(auth_difference(rooms, room, others) =~= auth_difference(rooms, room, ids)) by {
        assert forall|x: Seq<char>|
            auth_difference(rooms, room, others).contains(x) == auth_difference(
                rooms,
                room,
                ids,
            ).contains(x) by {
            lemma_difference(rooms, room, ids, states, others, other_states, x);
            lemma_difference(rooms, room, others, other_states, ids, states, x);
        }
    }
    assert(full_conflicted(rooms, room, others, other_states) =~= full_conflicted(
        rooms,
        room,
        ids,
        states,
    )) by {
        assert forall|x: Seq<char>| is_conflicted(other_states, x) == is_conflicted(states, x) by {
            if is_conflicted(states, x) {
                lemma_conflicted_same(ids, states, others, other_states, x);
            }
            if is_conflicted(other_states, x) {
                lemma_conflicted_same(others, other_states, ids, states, x);
            }
        }
    }
    lemma_complete(rooms, room, ids, states, others, other_states);
    lemma_complete(rooms, room, others, other_states, ids, states);
}

proof fn lemma_difference(
    rooms: Map<Seq<char>, RoomView>,
    room: Seq<char>,
    ids: Seq<Seq<char>>,
    states: Seq<Map<(Seq<char>, Seq<char>), Seq<char>>>,
    others: Seq<Seq<char>>,
    other_states: Seq<Map<(Seq<char>, Seq<char>), Seq<char>>>,
    x: Seq<char>,
)
    requires
        same_branches(ids, states, others, other_states),
    ensures
        auth_difference(rooms, room, ids).contains(x) ==> auth_difference(
            rooms,
            room,
            others,
        ).contains(x),
{
    if auth_difference(rooms, room, ids).contains(x) {
        let i = choose|i: int| 0 <= i < ids.len() && in_chain(rooms, room, #[trigger] ids[i], x);
        let j = choose|j: int| 0 <= j < ids.len() && !in_chain(rooms, room, #[trigger] ids[j], x);
        let a = choose|a: int|
            0 <= a < others.len() && #[trigger] others[a] == ids[i] && other_states[a] == states[i];
        let b = choose|b: int|
            0 <= b < others.len() && #[trigger] others[b] == ids[j] && other_states[b] == states[j];
        assert(in_chain(rooms, room, others[a], x) && !in_chain(rooms, room, others[b], x));
    }
}

proof fn lemma_complete(
    rooms: Map<Seq<char>, RoomView>,
    room: Seq<char>,
    ids: Seq<Seq<char>>,
    states: Seq<Map<(Seq<char>, Seq<char>), Seq<char>>>,
    others: Seq<Seq<char>>,
    other_states: Seq<Map<(Seq<char>, Seq<char>), Seq<char>>>,
)
    requires
        same_branches(ids, states, others, other_states),
    ensures
        chains_complete(rooms, room, others) ==> chains_complete(rooms, room, ids),
{
    if chains_complete(rooms, room, others) {
        assert forall|i: int| 0 <= i < ids.len() implies chain_complete(
            rooms,
            room,
            #[trigger] ids[i],
        ) by {
            let j = choose|j: int|
                0 <= j < others.len() && #[trigger] others[j] == ids[i] && other_states[j]
                    == states[i];
            assert(chain_complete(rooms, room, others[j]));
        }
    }
}

/// The position in the mainline that counts for an event: one without a place counts as far behind.
pub open spec fn mainline_index(
    rooms: Map<Seq<char>, RoomView>,
    room: Seq<char>,
    line: Seq<Seq<char>>,
    id: Seq<char>,
) -> int {
    match closest(rooms, room, line, id)->0 {
        Some(position) => position,
        None => usize::MAX as int,
    }
}

/// Whether an event that decides nothing on the powers of users comes before another.
pub open spec fn comes_before(
    rooms: Map<Seq<char>, RoomView>,
    room: Seq<char>,
    line: Seq<Seq<char>>,
    x: Seq<char>,
    y: Seq<char>,
) -> bool {
    key_less(plain_key(rooms, room, line, x), plain_key(rooms, room, line, y))
}

/// Events are ordered along the mainline from its end to its start, then by time, then by identifier.
/// Of two events one comes before the other, and the order is transitive.
pub proof fn law_mainline_order(
    rooms: Map<Seq<char>, RoomView>,
    room: Seq<char>,
    line: Seq<Seq<char>>,
    x: Seq<char>,
    y: Seq<char>,
    z: Seq<char>,
)
    ensures
        ({
            let i = mainline_index(rooms, room, line, x);
            let j = mainline_index(rooms, room, line, y);
            let s = find_pdu(rooms, room, x)->0.pdu.origin_server_ts;
            let t = find_pdu(rooms, room, y)->0.pdu.origin_server_ts;
            comes_before(rooms, room, line, x, y) == (i > j || (i == j && (s < t || (s == t
                && lex_less(x, y)))))
        }),
        x != y ==> comes_before(rooms, room, line, x, y) == !comes_before(rooms, room, line, y, x),
        !comes_before(rooms, room, line, x, x),
        comes_before(rooms, room, line, x, y) && comes_before(rooms, room, line, y, z)
            ==> comes_before(rooms, room, line, x, z),
{
    let a = plain_key(rooms, room, line, x);
    let b = plain_key(rooms, room, line, y);
    let c = plain_key(rooms, room, line, z);
    law_key_irreflexive(a);
    if x != y {
        law_key_total(a, b);
    }
    if key_less(a, b) && key_less(b, c) {
        law_key_transitive(a, b, c);
    }
}

} // verus!
