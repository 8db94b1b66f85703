//! How conflicting states are resolved into one.
use crate::events::pdu::StoredView;
use crate::events::room::Membership;
use crate::events::room_version::v4::PduView;
use crate::events::ContentView;
use crate::state::chain::{auth_difference, chains_complete, cites};
use crate::state::order::{key_ids, sorted, SortKeyView};
use crate::state::{empty_state, with_event, StateView};
use crate::storage::{find_pdu, is_state_of, RoomView};
use crate::util::storage::sender_level;
use crate::validate::auth::{auth_rules, AuthStatus};
use vstd::prelude::*;

verus! {

/// Whether an event decides on the powers of users.
pub open spec fn is_power_pdu(pdu: PduView) -> bool {
    match pdu.content {
        ContentView::PowerLevels(_) | ContentView::JoinRules(_) => true,
        ContentView::Member(m) => (m.membership == Membership::Leave || m.membership
            == Membership::Ban) && pdu.state_key != Some(pdu.sender),
        _ => false,
    }
}

/// Whether the authorisation of an event rests on the state event of a type with a key.
pub open spec fn rests_on(pdu: PduView, key: (Seq<char>, Seq<char>)) -> bool {
    pdu.content.label() != "m.room.create"@ && (key == ("m.room.create"@, ""@) || key == (
        "m.room.member"@,
        pdu.sender,
    ) || key == ("m.room.power_levels"@, ""@) || match pdu.content {
        ContentView::Member(m) => key == ("m.room.member"@, pdu.state_key->0) || ((m.membership
            == Membership::Join || m.membership == Membership::Invite) && key == (
            "m.room.join_rules"@,
            ""@,
        )),
        _ => false,
    })
}

/// Whether some state has an event for a key, and no other state has another.
pub open spec fn agreed(
    states: Seq<Map<(Seq<char>, Seq<char>), Seq<char>>>,
    key: (Seq<char>, Seq<char>),
) -> bool {
    &&& exists|i: int| 0 <= i < states.len() && (#[trigger] states[i]).contains_key(key)
    &&& forall|i: int, j: int|
        0 <= i < states.len() && 0 <= j < states.len() && (#[trigger] states[i]).contains_key(key)
            && (#[trigger] states[j]).contains_key(key) ==> states[i][key] == states[j][key]
}

/// What the states agree on.
pub open spec fn unconflicted(
    states: Seq<Map<(Seq<char>, Seq<char>), Seq<char>>>,
) -> Map<(Seq<char>, Seq<char>), Seq<char>> {
    Map::new(
        |key: (Seq<char>, Seq<char>)| agreed(states, key),
        |key: (Seq<char>, Seq<char>)|
            states[choose|i: int|
                0 <= i < states.len() && (#[trigger] states[i]).contains_key(key)][key],
    )
}

/// Whether an event stands at a key that the states do not agree on.
pub open spec fn is_conflicted(
    states: Seq<Map<(Seq<char>, Seq<char>), Seq<char>>>,
    id: Seq<char>,
) -> bool {
    exists|i: int, key: (Seq<char>, Seq<char>)|
        0 <= i < states.len() && (#[trigger] states[i].contains_key(key)) && states[i][key] == id
            && !agreed(states, key)
}

/// The events that the states do not agree on, and those in the auth chains of some of the events
/// and not of all.
pub open spec fn full_conflicted(
    rooms: Map<Seq<char>, RoomView>,
    room: Seq<char>,
    ids: Seq<Seq<char>>,
    states: Seq<Map<(Seq<char>, Seq<char>), Seq<char>>>,
) -> Set<Seq<char>> {
    Set::new(
        |x: Seq<char>| is_conflicted(states, x) || auth_difference(rooms, room, ids).contains(x),
    )
}

/// Whether all events of a set are there.
pub open spec fn all_found(
    rooms: Map<Seq<char>, RoomView>,
    room: Seq<char>,
    ids: Set<Seq<char>>,
) -> bool {
    forall|x: Seq<char>| #[trigger] ids.contains(x) ==> find_pdu(rooms, room, x) is Some
}

/// Those of some events that decide on the powers of users.
pub open spec fn power_events(
    rooms: Map<Seq<char>, RoomView>,
    room: Seq<char>,
    ids: Set<Seq<char>>,
) -> Set<Seq<char>> {
    Set::new(|x: Seq<char>| ids.contains(x) && is_power_pdu(find_pdu(rooms, room, x)->0.pdu))
}

/// Those of some events that decide nothing on the powers of users.
pub open spec fn plain_events(
    rooms: Map<Seq<char>, RoomView>,
    room: Seq<char>,
    ids: Set<Seq<char>>,
) -> Set<Seq<char>> {
    Set::new(|x: Seq<char>| ids.contains(x) && !is_power_pdu(find_pdu(rooms, room, x)->0.pdu))
}

/// Those of some events that none of them cites.
pub open spec fn uncited(
    rooms: Map<Seq<char>, RoomView>,
    room: Seq<char>,
    ids: Set<Seq<char>>,
) -> Set<Seq<char>> {
    Set::new(
        |x: Seq<char>|
            ids.contains(x) && forall|y: Seq<char>| #[trigger]
                ids.contains(y) ==> !cites(rooms, room, y, x),
    )
}

/// What an event is ordered by among those that decide on the powers of users.
pub open spec fn power_key(
    rooms: Map<Seq<char>, RoomView>,
    room: Seq<char>,
    id: Seq<char>,
) -> SortKeyView {
    let e = find_pdu(rooms, room, id)->0;
    SortKeyView {
        rank: sender_level(rooms, e.pdu.room_id, id)->0 as int,
        ts: e.pdu.origin_server_ts as int,
        id,
    }
}

/// The keys of some events.
pub open spec fn power_keys(
    rooms: Map<Seq<char>, RoomView>,
    room: Seq<char>,
    ids: Set<Seq<char>>,
) -> Set<SortKeyView> {
    Set::new(
        |k: SortKeyView| ids.contains(k.id) && k == power_key(rooms, room, k.id),
    )
}

/// Whether the level of the sender of each event of a set is known.
pub open spec fn levels_known(
    rooms: Map<Seq<char>, RoomView>,
    room: Seq<char>,
    ids: Set<Seq<char>>,
) -> bool {
    forall|x: Seq<char>| #[trigger]
        ids.contains(x) ==> sender_level(
            rooms,
            find_pdu(rooms, room, x)->0.pdu.room_id,
            x,
        ) is Some
}

/// The events that decide on the powers of users in the order in which they are looked at: in each
/// round those that no remaining one cites, by the level of the sender, the time and the
/// identifier. There is no such order where the events cite one another in a circle.
pub open spec fn power_order(
    rooms: Map<Seq<char>, RoomView>,
    room: Seq<char>,
    ids: Set<Seq<char>>,
) -> Option<Seq<Seq<char>>>
    decreases ids.len(),
    when ids.finite()
{
    if ids.len() == 0 {
        Some(Seq::empty())
    } else {
        let round = uncited(rooms, room, ids);
        if round.len() == 0 {
            None
        } else if !levels_known(rooms, room, round) {
            None
        } else {
            proof {
                lemma_round_smaller(rooms, room, ids);
            }
            match power_order(rooms, room, ids.difference(round)) {
                Some(rest) => Some(key_ids(sorted(power_keys(rooms, room, round))) + rest),
                None => None,
            }
        }
    }
}

pub proof fn lemma_round_smaller(
    rooms: Map<Seq<char>, RoomView>,
    room: Seq<char>,
    ids: Set<Seq<char>>,
)
    requires
        ids.finite(),
    ensures
        uncited(rooms, room, ids).subset_of(ids),
        uncited(rooms, room, ids).finite(),
        ids.difference(uncited(rooms, room, ids)).finite(),
        uncited(rooms, room, ids).len() > 0 ==> ids.difference(uncited(rooms, room, ids)).len()
            < ids.len(),
{
    let round = uncited(rooms, room, ids);
    vstd::set_lib::lemma_len_subset(round, ids);
    vstd::set_lib::lemma_set_difference_len(ids, round);
    assert(ids.intersect(round) =~= round);
    if round.len() > 0 {
        let x = round.choose();
        assert(round.contains(x));
        assert(ids.contains(x));
        let rest = ids.difference(round);
        assert(!rest.contains(x));
        assert(rest.subset_of(ids.remove(x)));
        vstd::set_lib::lemma_len_subset(rest, ids.remove(x));
    }
}

/// The state made of those cited events that were allowed. It is broken where a cited event is
/// missing, or where one that was allowed is no state event.
pub open spec fn cited_state(
    rooms: Map<Seq<char>, RoomView>,
    room: Seq<char>,
    ids: Seq<Seq<char>>,
    state: StateView,
) -> Option<StateView>
    decreases ids.len(),
{
    if ids.len() == 0 {
        Some(state)
    } else {
        match find_pdu(rooms, room, ids[0]) {
            None => None,
            Some(e) => if !e.passed {
                cited_state(rooms, room, ids.drop_first(), state)
            } else if e.pdu.state_key is None {
                None
            } else {
                cited_state(rooms, room, ids.drop_first(), with_event(state, e))
            },
        }
    }
}

/// The state against which an event that decides on the powers of users is held: what it cites,
/// under what has been resolved.
pub open spec fn power_base(
    cited: StateView,
    partial: Map<(Seq<char>, Seq<char>), Seq<char>>,
) -> StateView {
    StateView { map: cited.map.union_prefer_right(partial), ..cited }
}

/// The events that decide on the powers of users, put into the state one after the other. Each is
/// held against the rules, and put in whatever they say.
pub open spec fn apply_power(
    rooms: Map<Seq<char>, RoomView>,
    room: Seq<char>,
    partial: Map<(Seq<char>, Seq<char>), Seq<char>>,
    order: Seq<Seq<char>>,
) -> Option<Map<(Seq<char>, Seq<char>), Seq<char>>>
    decreases order.len(),
{
    if order.len() == 0 {
        Some(partial)
    } else {
        match find_pdu(rooms, room, order[0]) {
            None => None,
            Some(e) => match e.pdu.state_key {
                None => apply_power(rooms, room, partial, order.drop_first()),
                Some(key) => match cited_state(
                    rooms,
                    room,
                    e.pdu.auth_events,
                    empty_state(room),
                ) {
                    None => None,
                    Some(cited) => if auth_rules(rooms, e.pdu, power_base(cited, partial)) is None {
                        None
                    } else {
                        apply_power(
                            rooms,
                            room,
                            partial.insert((e.pdu.content.label(), key), order[0]),
                            order.drop_first(),
                        )
                    },
                },
            },
        }
    }
}

/// The first power levels event among some; nothing is known where one before it is missing.
pub open spec fn first_levels(
    rooms: Map<Seq<char>, RoomView>,
    room: Seq<char>,
    ids: Seq<Seq<char>>,
) -> Option<Option<Seq<char>>>
    decreases ids.len(),
{
    if ids.len() == 0 {
        Some(None)
    } else {
        match find_pdu(rooms, room, ids[0]) {
            None => None,
            Some(e) => if e.pdu.content is PowerLevels {
                Some(Some(ids[0]))
            } else {
                first_levels(rooms, room, ids.drop_first())
            },
        }
    }
}

/// The power levels event that an event cites.
pub open spec fn cited_levels(
    rooms: Map<Seq<char>, RoomView>,
    room: Seq<char>,
    id: Seq<char>,
) -> Option<Option<Seq<char>>> {
    match find_pdu(rooms, room, id) {
        None => None,
        Some(e) => first_levels(rooms, room, e.pdu.auth_events),
    }
}

/// A power levels event, the one that it cites, and so on, in a number of steps.
pub open spec fn mainline_within(
    rooms: Map<Seq<char>, RoomView>,
    room: Seq<char>,
    id: Seq<char>,
    steps: nat,
) -> Option<Seq<Seq<char>>>
    decreases steps,
{
    if steps == 0 {
        None
    } else {
        match cited_levels(rooms, room, id) {
            None => None,
            Some(None) => Some(seq![id]),
            Some(Some(parent)) => match mainline_within(
                rooms,
                room,
                parent,
                (steps - 1) as nat,
            ) {
                None => None,
                Some(rest) => Some(seq![id] + rest),
            },
        }
    }
}

/// A power levels event, the one that it cites, and so on. There is no end to it where they cite one
/// another in a circle.
pub open spec fn mainline(
    rooms: Map<Seq<char>, RoomView>,
    room: Seq<char>,
    id: Seq<char>,
) -> Option<Seq<Seq<char>>> {
    if exists|steps: nat| #[trigger] mainline_within(rooms, room, id, steps) is Some {
        mainline_within(
            rooms,
            room,
            id,
            choose|steps: nat| #[trigger] mainline_within(rooms, room, id, steps) is Some,
        )
    } else {
        None
    }
}

/// The position of the first occurrence.
pub open spec fn first_position(list: Seq<Seq<char>>, x: Seq<char>) -> int {
    choose|i: int| is_first(list, x, i)
}

/// Whether an item occurs at a position and nowhere before it.
pub open spec fn is_first(list: Seq<Seq<char>>, x: Seq<char>, i: int) -> bool {
    0 <= i < list.len() && list[i] == x && forall|j: int| 0 <= j < i ==> #[trigger] list[j] != x
}

/// The position in the mainline of the first event that belongs to it, out of an event, the power
/// levels event that it cites, and so on, in a number of steps.
pub open spec fn closest_within(
    rooms: Map<Seq<char>, RoomView>,
    room: Seq<char>,
    line: Seq<Seq<char>>,
    id: Seq<char>,
    steps: nat,
) -> Option<Option<int>>
    decreases steps,
{
    if line.contains(id) {
        Some(Some(first_position(line, id)))
    } else if steps == 0 {
        None
    } else {
        match cited_levels(rooms, room, id) {
            None => None,
            Some(None) => Some(None),
            Some(Some(parent)) => closest_within(rooms, room, line, parent, (steps - 1) as nat),
        }
    }
}

/// The position in the mainline of the first event that belongs to it, out of an event, the power
/// levels event that it cites, and so on.
pub open spec fn closest(
    rooms: Map<Seq<char>, RoomView>,
    room: Seq<char>,
    line: Seq<Seq<char>>,
    id: Seq<char>,
) -> Option<Option<int>> {
    if exists|steps: nat| #[trigger] closest_within(rooms, room, line, id, steps) is Some {
        closest_within(
            rooms,
            room,
            line,
            id,
            choose|steps: nat| #[trigger] closest_within(rooms, room, line, id, steps) is Some,
        )
    } else {
        None
    }
}

/// What an event is ordered by among those that decide nothing on the powers of users: those far
/// from the start of the mainline come first, and those without a place in it before all others.
pub open spec fn plain_key(
    rooms: Map<Seq<char>, RoomView>,
    room: Seq<char>,
    line: Seq<Seq<char>>,
    id: Seq<char>,
) -> SortKeyView {
    let e = find_pdu(rooms, room, id)->0;
    SortKeyView {
        rank: match closest(rooms, room, line, id)->0 {
            Some(position) => usize::MAX - position,
            None => 0,
        },
        ts: e.pdu.origin_server_ts as int,
        id,
    }
}

/// The keys of some events.
pub open spec fn plain_keys(
    rooms: Map<Seq<char>, RoomView>,
    room: Seq<char>,
    line: Seq<Seq<char>>,
    ids: Set<Seq<char>>,
) -> Set<SortKeyView> {
    Set::new(
        |k: SortKeyView| ids.contains(k.id) && k == plain_key(rooms, room, line, k.id),
    )
}

/// Whether each event of a set has a distance from the mainline.
pub open spec fn distances_known(
    rooms: Map<Seq<char>, RoomView>,
    room: Seq<char>,
    line: Seq<Seq<char>>,
    ids: Set<Seq<char>>,
) -> bool {
    forall|x: Seq<char>| #[trigger] ids.contains(x) ==> closest(rooms, room, line, x) is Some
}

/// The first of some events that is the state event of a type with a key.
pub open spec fn first_state(
    rooms: Map<Seq<char>, RoomView>,
    room: Seq<char>,
    ids: Seq<Seq<char>>,
    key: (Seq<char>, Seq<char>),
) -> Option<Seq<char>>
    decreases ids.len(),
{
    if ids.len() == 0 {
        None
    } else {
        match find_pdu(rooms, room, ids[0]) {
            Some(e) => if is_state_of(e, key.0, key.1) {
                Some(ids[0])
            } else {
                first_state(rooms, room, ids.drop_first(), key)
            },
            None => first_state(rooms, room, ids.drop_first(), key),
        }
    }
}

/// The state against which an event is held: what has been resolved, and for what is missing there
/// the events that it cites.
pub open spec fn plain_base(
    rooms: Map<Seq<char>, RoomView>,
    state: StateView,
    pdu: PduView,
) -> StateView {
    StateView {
        map: Map::new(
            |key: (Seq<char>, Seq<char>)|
                state.map.contains_key(key) || (rests_on(pdu, key) && first_state(
                    rooms,
                    state.room_id,
                    pdu.auth_events,
                    key,
                ) is Some),
            |key: (Seq<char>, Seq<char>)|
                if state.map.contains_key(key) {
                    state.map[key]
                } else {
                    first_state(rooms, state.room_id, pdu.auth_events, key)->0
                },
        ),
        ..state
    }
}

/// State events put into the state one after the other, each where the rules allow it.
pub open spec fn apply_plain(
    rooms: Map<Seq<char>, RoomView>,
    state: StateView,
    order: Seq<Seq<char>>,
) -> Option<StateView>
    decreases order.len(),
{
    if order.len() == 0 {
        Some(state)
    } else {
        let e = find_pdu(rooms, state.room_id, order[0])->0;
        if e.pdu.state_key is None {
            apply_plain(rooms, state, order.drop_first())
        } else {
            match auth_rules(rooms, e.pdu, plain_base(rooms, state, e.pdu)) {
                None => None,
                Some(AuthStatus::Pass) => apply_plain(
                    rooms,
                    with_event(state, e),
                    order.drop_first(),
                ),
                Some(AuthStatus::Fail) => apply_plain(rooms, state, order.drop_first()),
            }
        }
    }
}

/// The state after the events that decide on the powers of users.
pub open spec fn after_power(
    rooms: Map<Seq<char>, RoomView>,
    room: Seq<char>,
    conflicted: Set<Seq<char>>,
    base: Map<(Seq<char>, Seq<char>), Seq<char>>,
) -> Option<Map<(Seq<char>, Seq<char>), Seq<char>>> {
    match power_order(rooms, room, power_events(rooms, room, conflicted)) {
        None => None,
        Some(order) => apply_power(rooms, room, base, order),
    }
}

/// The state after the events that decide nothing on the powers of users.
pub open spec fn after_plain(
    rooms: Map<Seq<char>, RoomView>,
    room: Seq<char>,
    conflicted: Set<Seq<char>>,
    partial: Map<(Seq<char>, Seq<char>), Seq<char>>,
) -> Option<StateView> {
    if !partial.contains_key(("m.room.power_levels"@, ""@)) {
        None
    } else {
        match mainline(rooms, room, partial[("m.room.power_levels"@, ""@)]) {
            None => None,
            Some(line) => {
                let plain = plain_events(rooms, room, conflicted);
                if !distances_known(rooms, room, line, plain) {
                    None
                } else {
                    apply_plain(
                        rooms,
                        StateView { room_id: room, map: partial },
                        key_ids(sorted(plain_keys(rooms, room, line, plain))),
                    )
                }
            },
        }
    }
}

/// The one state that several events, each with a state after it, resolve into.
#[verifier::opaque]
pub open spec fn combined(
    rooms: Map<Seq<char>, RoomView>,
    room: Seq<char>,
    ids: Seq<Seq<char>>,
    states: Seq<Map<(Seq<char>, Seq<char>), Seq<char>>>,
) -> Option<StateView> {
    let conflicted = full_conflicted(rooms, room, ids, states);
    if !chains_complete(rooms, room, ids) {
        None
    } else if !all_found(rooms, room, conflicted) {
        None
    } else {
        match after_power(rooms, room, conflicted, unconflicted(states)) {
            None => None,
            Some(partial) => match after_plain(rooms, room, conflicted, partial) {
                None => None,
                Some(state) => Some(
                    StateView {
                        map: state.map.union_prefer_right(unconflicted(states)),
                        ..state
                    },
                ),
            },
        }
    }
}

/// Whether a list names one event only.
pub open spec fn names_one(ids: Seq<Seq<char>>) -> bool {
    ids.len() > 0 && forall|i: int| 0 <= i < ids.len() ==> #[trigger] ids[i] == ids[0]
}

/// The state after an event, given the state before it.
pub open spec fn state_after(before: StateView, e: StoredView) -> StateView {
    if e.passed && e.pdu.state_key is Some {
        with_event(before, e)
    } else {
        before
    }
}

/// The state after some events, within a depth of the history.
pub open spec fn resolved_within(
    rooms: Map<Seq<char>, RoomView>,
    room: Seq<char>,
    ids: Seq<Seq<char>>,
    depth: nat,
) -> Option<StateView>
    decreases depth, 0nat,
{
    if ids.len() == 0 {
        Some(empty_state(room))
    } else if depth == 0 {
        None
    } else if names_one(ids) {
        match find_pdu(rooms, room, ids[0]) {
            None => None,
            Some(e) => match resolved_within(
                rooms,
                room,
                e.pdu.prev_events,
                (depth - 1) as nat,
            ) {
                None => None,
                Some(before) => Some(state_after(before, e)),
            },
        }
    } else {
        match branches_within(rooms, room, ids, (depth - 1) as nat) {
            None => None,
            Some(states) => combined(rooms, room, ids, states),
        }
    }
}

/// The states after each of some events, within a depth of the history.
pub open spec fn branches_within(
    rooms: Map<Seq<char>, RoomView>,
    room: Seq<char>,
    ids: Seq<Seq<char>>,
    depth: nat,
) -> Option<Seq<Map<(Seq<char>, Seq<char>), Seq<char>>>>
    decreases depth, 1nat,
{
    if forall|i: int|
        0 <= i < ids.len() ==> resolved_within(
            rooms,
            room,
            seq![#[trigger] ids[i]],
            depth,
        ) is Some {
        Some(
            Seq::new(
                ids.len(),
                |i: int| (resolved_within(rooms, room, seq![ids[i]], depth)->0).map,
            ),
        )
    } else {
        None
    }
}

/// The state after some events. It is unknown where an event that it rests on is missing or of the
/// wrong kind, or where events follow one another in a circle.
pub open spec fn resolved(
    rooms: Map<Seq<char>, RoomView>,
    room: Seq<char>,
    ids: Seq<Seq<char>>,
) -> Option<StateView> {
    if exists|depth: nat| #[trigger] resolved_within(rooms, room, ids, depth) is Some {
        resolved_within(
            rooms,
            room,
            ids,
            choose|depth: nat| #[trigger] resolved_within(rooms, room, ids, depth) is Some,
        )
    } else {
        None
    }
}

/// A state that is known within a depth is known within a greater one.
pub proof fn lemma_deeper(
    rooms: Map<Seq<char>, RoomView>,
    room: Seq<char>,
    ids: Seq<Seq<char>>,
    depth: nat,
    more: nat,
)
    requires
        resolved_within(rooms, room, ids, depth) is Some,
        depth <= more,
    ensures
        resolved_within(rooms, room, ids, more) == resolved_within(rooms, room, ids, depth),
    decreases depth,
{
    if ids.len() > 0 {
        if names_one(ids) {
            let e = find_pdu(rooms, room, ids[0])->0;
            lemma_deeper(
                rooms,
                room,
                e.pdu.prev_events,
                (depth - 1) as nat,
                (more - 1) as nat,
            );
        } else {
            assert(branches_within(rooms, room, ids, (depth - 1) as nat) is Some);
            assert forall|i: int| 0 <= i < ids.len() implies resolved_within(
                rooms,
                room,
                seq![#[trigger] ids[i]],
                (more - 1) as nat,
            ) == resolved_within(rooms, room, seq![ids[i]], (depth - 1) as nat) && resolved_within(
                rooms,
                room,
                seq![ids[i]],
                (depth - 1) as nat,
            ) is Some by {
                lemma_deeper(
                    rooms,
                    room,
                    seq![ids[i]],
                    (depth - 1) as nat,
                    (more - 1) as nat,
                );
            }
            let near = branches_within(rooms, room, ids, (depth - 1) as nat);
            let far = branches_within(rooms, room, ids, (more - 1) as nat);
            assert(near is Some && far is Some);
            assert(far->0 =~= near->0);
        }
    }
}

/// A state that is known within a depth is the state.
pub proof fn lemma_resolved(
    rooms: Map<Seq<char>, RoomView>,
    room: Seq<char>,
    ids: Seq<Seq<char>>,
    depth: nat,
)
    requires
        resolved_within(rooms, room, ids, depth) is Some,
    ensures
        resolved(rooms, room, ids) == resolved_within(rooms, room, ids, depth),
{
    let other = choose|other: nat| #[trigger] resolved_within(rooms, room, ids, other) is Some;
    assert(resolved_within(rooms, room, ids, other) is Some);
    if depth <= other {
        lemma_deeper(rooms, room, ids, depth, other);
    } else {
        lemma_deeper(rooms, room, ids, other, depth);
    }
}

/// The state after one event is known exactly where the event is there and the state before it is
/// known, and follows from it.
pub proof fn law_resolved_one(
    rooms: Map<Seq<char>, RoomView>,
    room: Seq<char>,
    id: Seq<char>,
)
    ensures
        resolved(rooms, room, seq![id]) == (match find_pdu(rooms, room, id) {
            None => None,
            Some(e) => match resolved(rooms, room, e.pdu.prev_events) {
                None => None,
                Some(before) => Some(state_after(before, e)),
            },
        }),
{
    let ids = seq![id];
    assert(names_one(ids));
    match find_pdu(rooms, room, id) {
        None => {
            assert forall|depth: nat| #[trigger]
                resolved_within(rooms, room, ids, depth) is None by {}
        },
        Some(e) => {
            if resolved(rooms, room, ids) is Some {
                let depth = choose|depth: nat| #[trigger]
                    resolved_within(rooms, room, ids, depth) is Some;
                assert(resolved_within(rooms, room, ids, depth) is Some);
                lemma_resolved(rooms, room, e.pdu.prev_events, (depth - 1) as nat);
            }
            if resolved(rooms, room, e.pdu.prev_events) is Some {
                let depth = choose|depth: nat| #[trigger]
                    resolved_within(rooms, room, e.pdu.prev_events, depth) is Some;
                assert(resolved_within(rooms, room, e.pdu.prev_events, depth) is Some);
                lemma_resolved(rooms, room, e.pdu.prev_events, depth);
                assert(resolved_within(rooms, room, ids, depth + 1) is Some);
                lemma_resolved(rooms, room, ids, depth + 1);
            }
        },
    }
}

/// In a room in which nothing has happened the state is empty.
pub proof fn law_resolved_none(rooms: Map<Seq<char>, RoomView>, room: Seq<char>)
    ensures
        resolved(rooms, room, Seq::empty()) == Some(empty_state(room)),
{
    assert(resolved_within(rooms, room, Seq::empty(), 0) is Some);
    lemma_resolved(rooms, room, Seq::empty(), 0);
}

} // verus!
