//! What is found out about states and the events that they rest on.
use crate::error::ErrorKind;
use crate::events::pdu::StoredPdu;
use crate::events::room::Membership;
use crate::events::room_version::VersionedPdu;
use crate::events::ContentView;
use crate::state::chain::{auth_chains, find_auth_difference, in_chain};
use crate::state::levels::{find_closest, find_mainline};
use crate::state::order::{sort_keys, SortKey};
use crate::state::outcome::{
    allowed_in, changes_powers, empowers, first_levels_at, in_power_order, law_closest,
    law_mainline, law_settled, no_agreement, none_levels, one_sided, place_of, settles, undisputed,
    Settlement,
};
use crate::state::power::{reverse_topological_power_ordering, stored_ids};
use crate::state::resolver::{
    auth_types_for_event, is_power_event, iterative_auth_checks, StateResolver,
};
use crate::state::rules::{closest, resolved};
use crate::state::{State, StateView};
use crate::storage::{find_pdu, RoomView, Storage};
use crate::text::{lex_less, texts};
use crate::dict::KeySet;
use vstd::prelude::*;

verus! {

/// Whether the states after some events are known, and at least two of the events differ.
pub open spec fn is_fork(
    rooms: Map<Seq<char>, RoomView>,
    room: Seq<char>,
    ids: Seq<Seq<char>>,
    states: Seq<Map<(Seq<char>, Seq<char>), Seq<char>>>,
) -> bool {
    &&& states.len() == ids.len()
    &&& exists|i: int, j: int|
        0 <= i < ids.len() && 0 <= j < ids.len() && #[trigger] ids[i] != #[trigger] ids[j]
    &&& forall|i: int|
        0 <= i < ids.len() ==> (#[trigger] resolved(rooms, room, seq![ids[i]])) is Some
            && resolved(rooms, room, seq![ids[i]])->0.map == states[i]
}

/// Where the history of a room has forked, the states of the branches are settled into one: what they
/// agree on stands, and for the rest the events have their turns, and of those that are allowed at their
/// turns the last one stands.
pub proof fn law_fork_resolved<S: Storage>(
    resolver: &mut StateResolver,
    db: &S,
    room_id: &str,
    events: &Vec<String>,
    r: Result<Option<State>, ErrorKind>,
    states: Seq<Map<(Seq<char>, Seq<char>), Seq<char>>>,
) -> (how: (Seq<Seq<char>>, Map<(Seq<char>, Seq<char>), Seq<char>>, Settlement))
    requires
        call_ensures(StateResolver::try_resolve::<S>, (resolver, db, room_id, events), r),
        r is Ok && r->Ok_0 is Some,
        is_fork(db@.rooms, room_id@, texts(events@), states),
    ensures
        empowers(db@.rooms, room_id@, texts(events@), states, how.0, how.1),
        settles(db@.rooms, room_id@, texts(events@), states, how.1, how.2),
        r->Ok_0->0@.room_id == room_id@,
        forall|key: (Seq<char>, Seq<char>), id: Seq<char>| #[trigger]
            undisputed(states, key, id) ==> r->Ok_0->0@.map.contains_key(key)
                && r->Ok_0->0@.map[key] == id,
        forall|key: (Seq<char>, Seq<char>)| #[trigger]
            no_agreement(states, key) ==> r->Ok_0->0@.map.contains_key(key)
                == how.2.turns.last().contains_key(key) && (r->Ok_0->0@.map.contains_key(key)
                ==> r->Ok_0->0@.map[key] == how.2.turns.last()[key]),
{
    crate::state::outcome::law_several_resolved(db@.rooms, room_id@, texts(events@), states);
    law_settled(db@.rooms, room_id@, texts(events@), states)
}

/// Where the history of a room has forked, an event that is allowed at its turn stands against every other
/// that had its turn before it: at the same place of the mainline, the later one stands.
pub proof fn law_later_branch_stands<S: Storage>(
    resolver: &mut StateResolver,
    db: &S,
    room_id: &str,
    events: &Vec<String>,
    r: Result<Option<State>, ErrorKind>,
    states: Seq<Map<(Seq<char>, Seq<char>), Seq<char>>>,
) -> (s: Settlement)
    requires
        call_ensures(StateResolver::try_resolve::<S>, (resolver, db, room_id, events), r),
        r is Ok && r->Ok_0 is Some,
        is_fork(db@.rooms, room_id@, texts(events@), states),
    ensures
        forall|k: int|
            0 <= k < s.order.len() && allowed_in(
                db@.rooms,
                room_id@,
                s.turns[k],
                #[trigger] s.order[k],
            ) && no_agreement(states, place_of(db@.rooms, room_id@, s.order[k])) ==> ({
                let key = place_of(db@.rooms, room_id@, s.order[k]);
                let map = r->Ok_0->0@.map;
                &&& map.contains_key(key)
                &&& forall|i: int| 0 <= i < k ==> map[key] != #[trigger] s.order[i]
            }),
        exists|partial: Map<(Seq<char>, Seq<char>), Seq<char>>| #[trigger]
            settles(db@.rooms, room_id@, texts(events@), states, partial, s),
        forall|i: int, j: int|
            #![trigger s.order[i], s.order[j]]
            0 <= i < s.order.len() && 0 <= j < s.order.len() && ({
                let x = find_pdu(db@.rooms, room_id@, s.order[i])->0.pdu;
                let y = find_pdu(db@.rooms, room_id@, s.order[j])->0.pdu;
                closest(db@.rooms, room_id@, s.line, s.order[i]) == closest(
                    db@.rooms,
                    room_id@,
                    s.line,
                    s.order[j],
                ) && x.origin_server_ts < y.origin_server_ts
            }) ==> i < j,
{
    let (order, partial, s) = law_fork_resolved(resolver, db, room_id, events, r, states);
    let map = r->Ok_0->0@.map;
    assert forall|k: int|
        0 <= k < s.order.len() && allowed_in(
            db@.rooms,
            room_id@,
            s.turns[k],
            #[trigger] s.order[k],
        ) && no_agreement(states, place_of(db@.rooms, room_id@, s.order[k])) implies ({
        let key = place_of(db@.rooms, room_id@, s.order[k]);
        &&& map.contains_key(key)
        &&& forall|i: int| 0 <= i < k ==> map[key] != #[trigger] s.order[i]
    }) by {
        let key = place_of(db@.rooms, room_id@, s.order[k]);
        crate::state::outcome::law_later_stands(
            db@.rooms,
            room_id@,
            texts(events@),
            states,
            partial,
            s,
            k,
        );
        assert forall|i: int| 0 <= i < k implies map[key] != #[trigger] s.order[i] by {
            assert(s.order.contains(s.order[i]));
            assert(crate::state::outcome::earlier_turn(
                db@.rooms,
                room_id@,
                s.line,
                s.order[i],
                s.order[k],
            ));
        }
    }
    assert forall|i: int, j: int|
        #![trigger s.order[i], s.order[j]]
        0 <= i < s.order.len() && 0 <= j < s.order.len() && ({
            let x = find_pdu(db@.rooms, room_id@, s.order[i])->0.pdu;
            let y = find_pdu(db@.rooms, room_id@, s.order[j])->0.pdu;
            closest(db@.rooms, room_id@, s.line, s.order[i]) == closest(
                db@.rooms,
                room_id@,
                s.line,
                s.order[j],
            ) && x.origin_server_ts < y.origin_server_ts
        }) implies i < j by {
        if j < i {
            assert(crate::state::outcome::earlier_turn(
                db@.rooms,
                room_id@,
                s.line,
                s.order[j],
                s.order[i],
            ));
        }
    }
    s
}

/// The state after one event is that before it, with the event in it where it is a state event that was
/// allowed.
pub proof fn law_event_resolved<S: Storage>(
    resolver: &mut StateResolver,
    db: &S,
    room_id: &str,
    events: &Vec<String>,
    r: Result<Option<State>, ErrorKind>,
    before: StateView,
)
    requires
        call_ensures(StateResolver::try_resolve::<S>, (resolver, db, room_id, events), r),
        r is Ok,
        events@.len() == 1,
        find_pdu(db@.rooms, room_id@, events@[0]@) is Some,
        resolved(
            db@.rooms,
            room_id@,
            find_pdu(db@.rooms, room_id@, events@[0]@)->0.pdu.prev_events,
        ) == Some(before),
    ensures
        ({
            let e = find_pdu(db@.rooms, room_id@, events@[0]@)->0;
            &&& r->Ok_0 is Some
            &&& e.passed && e.pdu.state_key is Some ==> r->Ok_0->0@.map == before.map.insert(
                (e.pdu.content.label(), e.pdu.state_key->0),
                events@[0]@,
            )
            &&& !(e.passed && e.pdu.state_key is Some) ==> r->Ok_0->0@.map == before.map
        }),
{
    assert(texts(events@) =~= seq![events@[0]@]);
    crate::state::outcome::law_state_after_event(db@.rooms, room_id@, events@[0]@);
}

/// Before anything has happened the state is empty.
pub proof fn law_nothing_resolved<S: Storage>(
    resolver: &mut StateResolver,
    db: &S,
    room_id: &str,
    events: &Vec<String>,
    r: Result<Option<State>, ErrorKind>,
)
    requires
        call_ensures(StateResolver::try_resolve::<S>, (resolver, db, room_id, events), r),
        r is Ok,
        events@.len() == 0,
    ensures
        r->Ok_0 is Some,
        r->Ok_0->0@.room_id == room_id@,
        r->Ok_0->0@.map == Map::<(Seq<char>, Seq<char>), Seq<char>>::empty(),
{
    assert(texts(events@) =~= Seq::<Seq<char>>::empty());
    crate::state::rules::law_resolved_none(db@.rooms, room_id@);
}

/// All ways to ask for a state give the same.
pub proof fn law_resolve_same<S: Storage>(
    a: &mut StateResolver,
    b: &mut StateResolver,
    c: &mut StateResolver,
    db: &S,
    room_id: &str,
    events: &Vec<String>,
    x: Result<Option<State>, ErrorKind>,
    y: Result<State, ErrorKind>,
    z: Result<State, ErrorKind>,
)
    requires
        call_ensures(StateResolver::try_resolve::<S>, (a, db, room_id, events), x),
        call_ensures(StateResolver::resolve::<S>, (b, db, room_id, events), y),
        call_ensures(StateResolver::resolve_v2::<S>, (c, db, room_id, events), z),
        x is Ok && y is Ok && z is Ok,
    ensures
        x->Ok_0 is Some,
        y->Ok_0@ == x->Ok_0->0@,
        z->Ok_0@ == x->Ok_0->0@,
{
}

/// State events are put into the state one after the other, each that is allowed at its turn in place of
/// what stood there.
pub proof fn law_checked_in_turn<S: Storage>(
    db: &S,
    state: State,
    order: &Vec<String>,
    r: Result<Option<State>, ErrorKind>,
) -> (turns: Seq<Map<(Seq<char>, Seq<char>), Seq<char>>>)
    requires
        call_ensures(iterative_auth_checks::<S>, (db, state, order), r),
        r is Ok && r->Ok_0 is Some,
        forall|i: int|
            0 <= i < order@.len() ==> find_pdu(
                db@.rooms,
                state@.room_id,
                #[trigger] texts(order@)[i],
            ) is Some,
    ensures
        turns.len() == order@.len() + 1,
        turns[0] == state@.map,
        r->Ok_0->0@.map == turns.last(),
        forall|i: int|
            0 <= i < order@.len() ==> turns[i + 1] == if allowed_in(
                db@.rooms,
                state@.room_id,
                turns[i],
                #[trigger] texts(order@)[i],
            ) {
                turns[i].insert(
                    place_of(db@.rooms, state@.room_id, texts(order@)[i]),
                    texts(order@)[i],
                )
            } else {
                turns[i]
            },
{
    assert(state@ == (StateView { room_id: state@.room_id, map: state@.map }));
    crate::state::outcome::lemma_turns(
        db@.rooms,
        state@.room_id,
        state@.map,
        texts(order@),
    )
}

/// The events that change who may do what are told from the others.
pub proof fn law_power_events_told(pdu: &VersionedPdu, r: bool)
    requires
        call_ensures(is_power_event, (pdu,), r),
    ensures
        r == changes_powers(pdu@),
{
}

/// The rules look at the creation, the power levels and the membership of the sender, of a membership at
/// that of its target too, and where someone joins or is invited at the join rules; of a creation at
/// nothing.
pub proof fn law_looked_at(
    pdu: &VersionedPdu,
    keys: KeySet<(String, String)>,
    key: (Seq<char>, Seq<char>),
)
    requires
        call_ensures(auth_types_for_event, (pdu,), keys),
    ensures
        pdu@.content is Create ==> !keys@.contains(key),
        pdu@.content.label() != "m.room.create"@ ==> (keys@.contains(key) <==> key == (
            "m.room.create"@,
            ""@,
        ) || key == ("m.room.power_levels"@, ""@) || key == ("m.room.member"@, pdu@.sender) || (
        pdu@.content matches ContentView::Member(m) && (key == (
            "m.room.member"@,
            pdu@.state_key->0,
        ) || (key == ("m.room.join_rules"@, ""@) && (m.membership == Membership::Join
            || m.membership == Membership::Invite))))),
{
}

/// The difference of auth chains is made of the events that are in one and not in another.
pub proof fn law_difference_found<S: Storage>(
    db: &S,
    room_id: &str,
    ids: &Vec<String>,
    r: Result<Option<KeySet<String>>, ErrorKind>,
    x: Seq<char>,
)
    requires
        call_ensures(find_auth_difference::<S>, (db, room_id, ids), r),
        r is Ok && r->Ok_0 is Some,
    ensures
        r->Ok_0->0@.contains(x) == one_sided(db@.rooms, room_id@, texts(ids@), x),
{
    let found = r->Ok_0->0@;
    let all = texts(ids@);
    if found.contains(x) {
        let i = choose|i: int|
            0 <= i < all.len() && in_chain(db@.rooms, room_id@, #[trigger] all[i], x);
        let j = choose|j: int|
            0 <= j < all.len() && !in_chain(db@.rooms, room_id@, #[trigger] all[j], x);
        assert(in_chain(db@.rooms, room_id@, all[i], x) && !in_chain(
            db@.rooms,
            room_id@,
            all[j],
            x,
        ));
    }
    if one_sided(db@.rooms, room_id@, all, x) {
        let (i, j) = choose|i: int, j: int|
            0 <= i < all.len() && 0 <= j < all.len() && in_chain(
                db@.rooms,
                room_id@,
                #[trigger] all[i],
                x,
            ) && !in_chain(db@.rooms, room_id@, #[trigger] all[j], x);
        assert(in_chain(db@.rooms, room_id@, all[i], x) && !in_chain(
            db@.rooms,
            room_id@,
            all[j],
            x,
        ));
    }
}

/// The auth chains of some events are all that they cite, and what that cites, and so on.
pub proof fn law_chains_found<S: Storage>(
    db: &S,
    room_id: &str,
    ids: &Vec<String>,
    r: Result<Option<KeySet<String>>, ErrorKind>,
    x: Seq<char>,
)
    requires
        call_ensures(auth_chains::<S>, (db, room_id, ids), r),
        r is Ok && r->Ok_0 is Some,
    ensures
        r->Ok_0->0@.contains(x) <==> exists|i: int|
            0 <= i < ids@.len() && in_chain(db@.rooms, room_id@, (#[trigger] ids@[i])@, x),
{
    let all = texts(ids@);
    if r->Ok_0->0@.contains(x) {
        let i = choose|i: int|
            0 <= i < all.len() && in_chain(db@.rooms, room_id@, #[trigger] all[i], x);
        assert(in_chain(db@.rooms, room_id@, ids@[i]@, x));
    }
    if exists|i: int|
        0 <= i < ids@.len() && in_chain(db@.rooms, room_id@, (#[trigger] ids@[i])@, x) {
        let i = choose|i: int|
            0 <= i < ids@.len() && in_chain(db@.rooms, room_id@, (#[trigger] ids@[i])@, x);
        assert(in_chain(db@.rooms, room_id@, all[i], x));
    }
}

/// The mainline that is found leads from each event to the first power levels event that it cites.
pub proof fn law_mainline_found<S: Storage>(
    db: &S,
    room_id: &str,
    start: &str,
    r: Result<Option<Vec<String>>, ErrorKind>,
)
    requires
        call_ensures(find_mainline::<S>, (db, room_id, start), r),
        r is Ok && r->Ok_0 is Some,
    ensures
        ({
            let line = texts(r->Ok_0->0@);
            &&& line.len() > 0 && line[0] == start@
            &&& forall|i: int|
                0 <= i < line.len() - 1 ==> ({
                    let cited = find_pdu(
                        db@.rooms,
                        room_id@,
                        #[trigger] line[i],
                    )->0.pdu.auth_events;
                    exists|k: int| #[trigger]
                        first_levels_at(db@.rooms, room_id@, cited, k) && cited[k] == line[i + 1]
                })
            &&& none_levels(
                db@.rooms,
                room_id@,
                find_pdu(db@.rooms, room_id@, line.last())->0.pdu.auth_events,
            )
        }),
{
    law_mainline(db@.rooms, room_id@, start@);
}

/// The place in the mainline that is found for an event is its own, or that of the first power levels event
/// that it cites.
pub proof fn law_closest_found<S: Storage>(
    db: &S,
    room_id: &str,
    line: &Vec<String>,
    start: &str,
    r: Result<Option<Option<usize>>, ErrorKind>,
)
    requires
        call_ensures(find_closest::<S>, (db, room_id, line, start), r),
        r is Ok && r->Ok_0 is Some,
    ensures
        ({
            let found = r->Ok_0->0;
            let cited = find_pdu(db@.rooms, room_id@, start@)->0.pdu.auth_events;
            &&& texts(line@).contains(start@) ==> (found matches Some(i) && i < line@.len()
                && line@[i as int]@ == start@)
            &&& !texts(line@).contains(start@) ==> (none_levels(db@.rooms, room_id@, cited)
                && found is None) || (exists|k: int| #[trigger]
                first_levels_at(db@.rooms, room_id@, cited, k) && closest(
                    db@.rooms,
                    room_id@,
                    texts(line@),
                    cited[k],
                ) == Some(
                    match found {
                        Some(i) => Some(i as int),
                        None => None,
                    },
                ))
        }),
{
    law_closest(db@.rooms, room_id@, texts(line@), start@);
}

/// The events that decide on the powers of users are put in their order.
pub proof fn law_power_ordered<S: Storage>(
    db: &S,
    room_id: &str,
    events: Vec<StoredPdu>,
    r: Result<Option<Vec<String>>, ErrorKind>,
)
    requires
        call_ensures(reverse_topological_power_ordering::<S>, (db, room_id, events), r),
        r is Ok && r->Ok_0 is Some,
    ensures
        ({
            let order = texts(r->Ok_0->0@);
            &&& in_power_order(db@.rooms, room_id@, order)
            &&& forall|x: Seq<char>| #[trigger]
                order.contains(x) <==> stored_ids(events@).contains(x)
        }),
{
    let ids = stored_ids(events@).to_set();
    vstd::seq_lib::seq_to_set_is_finite(stored_ids(events@));
    crate::state::outcome::lemma_in_power_order(db@.rooms, room_id@, ids);
}

/// Whether a key is in a list.
pub open spec fn has_sort_key(keys: Seq<SortKey>, k: crate::state::order::SortKeyView) -> bool {
    exists|j: int| 0 <= j < keys.len() && (#[trigger] keys[j])@ == k
}

/// Keys are put in order: by rank, then by time, then by identifier, each once, and none is lost or added.
pub proof fn law_keys_sorted(keys: Vec<SortKey>, r: Vec<SortKey>)
    requires
        call_ensures(sort_keys, (keys,), r),
    ensures
        forall|i: int, j: int|
            0 <= i < j < r@.len() ==> ({
                let a = #[trigger] r@[i];
                let b = #[trigger] r@[j];
                a.rank < b.rank || (a.rank == b.rank && (a.ts < b.ts || (a.ts == b.ts && lex_less(
                    a.id@,
                    b.id@,
                ))))
            }),
        forall|i: int| 0 <= i < keys@.len() ==> has_sort_key(r@, (#[trigger] keys@[i])@),
        forall|j: int| 0 <= j < r@.len() ==> has_sort_key(keys@, (#[trigger] r@[j])@),
{
    let before = crate::state::order::key_views(keys@);
    let after = crate::state::order::key_views(r@);
    assert forall|i: int, j: int| 0 <= i < j < r@.len() implies ({
        let a = #[trigger] r@[i];
        let b = #[trigger] r@[j];
        a.rank < b.rank || (a.rank == b.rank && (a.ts < b.ts || (a.ts == b.ts && lex_less(
            a.id@,
            b.id@,
        ))))
    }) by {
        assert(crate::state::order::key_less(after[i], after[j]));
    }
    assert forall|i: int| 0 <= i < keys@.len() implies has_sort_key(r@, (#[trigger] keys@[i])@) by {
        assert(before[i] == keys@[i]@);
        assert(before.to_set().contains(before[i]));
        assert(after.contains(before[i]));
        let j = choose|j: int| 0 <= j < after.len() && after[j] == before[i];
        assert(r@[j]@ == keys@[i]@);
    }
    assert forall|j: int| 0 <= j < r@.len() implies has_sort_key(keys@, (#[trigger] r@[j])@) by {
        assert(after[j] == r@[j]@);
        assert(after.to_set().contains(after[j]));
        assert(before.contains(after[j]));
        let i = choose|i: int| 0 <= i < before.len() && before[i] == after[j];
        assert(keys@[i]@ == r@[j]@);
    }
}

/// A state gives back what was put into it: for each type and key the last event.
pub proof fn law_state_kept_event(
    state: &mut State,
    pdu: &StoredPdu,
    key: (&str, &str),
    before: Option<&str>,
    found: Option<&str>,
)
    requires
        call_ensures(State::get, (&*old(state), key), before),
        call_ensures(State::insert_event, (state, pdu), ()),
        call_ensures(State::get, (&*final(state), key), found),
    ensures
        ({
            let own = key.0@ == pdu@.pdu.content.label() && pdu@.pdu.state_key == Some(key.1@);
            &&& own ==> found is Some && found->0@ == pdu@.id()
            &&& pdu@.pdu.state_key is Some && !own ==> found is Some == before is Some && (
            found is Some ==> found->0@ == before->0@)
        }),
{
}

} // verus!
