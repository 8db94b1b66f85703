//! What stays as it is while rooms grow.
use crate::events::pdu::StoredView;
use crate::events::room_version::v4::PduView;
use crate::events::ContentKind;
use crate::state::chain::{
    auth_difference, chain_complete, chains_complete, cites, events_of, ids_of, in_chain, leads,
    lemma_found, lemma_ids_finite,
};
use crate::state::levels::{lemma_closest, lemma_mainline};
use crate::state::order::{key_ids, lemma_sorted, sorted, SortKeyView};
use crate::state::rules::{
    after_plain, after_power, all_found, apply_plain, apply_power, branches_within, cited_levels,
    cited_state, closest, closest_within, combined, distances_known, first_levels, first_state,
    full_conflicted, lemma_resolved, lemma_round_smaller, levels_known, mainline, mainline_within,
    names_one, plain_base, plain_events, plain_key, plain_keys, power_base, power_events, power_key,
    power_keys, power_order, resolved, resolved_within, unconflicted, uncited,
};
use crate::state::{empty_state, state_content, with_event, StateView};
use crate::storage::{add_all, add_one, find_in, find_pdu, new_room, RoomView};
use crate::util::storage::{level_by, sender_level};
use crate::validate::auth::{auth_rules, cites_create, cites_state, AuthStatus};
use vstd::prelude::*;

verus! {

/// Whether every event that is in some rooms is still there, unchanged, in others.
pub open spec fn extends(
    before: Map<Seq<char>, RoomView>,
    after: Map<Seq<char>, RoomView>,
) -> bool {
    forall|room: Seq<char>, id: Seq<char>| #[trigger]
        find_pdu(before, room, id) is Some ==> find_pdu(after, room, id) == find_pdu(
            before,
            room,
            id,
        )
}

/// Whether every event is in the room that it belongs to.
pub open spec fn at_home(rooms: Map<Seq<char>, RoomView>) -> bool {
    forall|room: Seq<char>, id: Seq<char>| #[trigger]
        find_pdu(rooms, room, id) is Some ==> find_pdu(rooms, room, id)->0.pdu.room_id == room
}

proof fn lemma_leads_kept(
    before: Map<Seq<char>, RoomView>,
    after: Map<Seq<char>, RoomView>,
    room: Seq<char>,
    a: Seq<char>,
    x: Seq<char>,
    steps: nat,
)
    requires
        extends(before, after),
        chain_complete(before, room, a),
    ensures
        leads(after, room, a, x, steps) == leads(before, room, a, x, steps),
    decreases steps,
{
    assert(leads(before, room, a, a, 0));
    assert(find_pdu(before, room, a) is Some);
    if steps > 0 {
        assert forall|mid: Seq<char>| #[trigger] cites(before, room, a, mid) implies chain_complete(
            before,
            room,
            mid,
        ) by {
            assert forall|y: Seq<char>, n: nat| #[trigger]
                leads(before, room, mid, y, n) implies find_pdu(before, room, y) is Some by {
                assert(leads(before, room, a, y, n + 1));
            }
        }
        assert forall|mid: Seq<char>| #[trigger]
            cites(before, room, a, mid) implies leads(
            after,
            room,
            mid,
            x,
            (steps - 1) as nat,
        ) == leads(before, room, mid, x, (steps - 1) as nat) by {
            lemma_leads_kept(before, after, room, mid, x, (steps - 1) as nat);
        }
        assert forall|mid: Seq<char>|
            cites(after, room, a, mid) == cites(before, room, a, mid) by {}
        if leads(after, room, a, x, steps) {
            let mid = choose|mid: Seq<char>| #[trigger]
                cites(after, room, a, mid) && leads(after, room, mid, x, (steps - 1) as nat);
            assert(cites(before, room, a, mid));
        }
        if leads(before, room, a, x, steps) {
            let mid = choose|mid: Seq<char>| #[trigger]
                cites(before, room, a, mid) && leads(before, room, mid, x, (steps - 1) as nat);
            assert(cites(after, room, a, mid));
        }
    }
}

proof fn lemma_chains_kept(
    before: Map<Seq<char>, RoomView>,
    after: Map<Seq<char>, RoomView>,
    room: Seq<char>,
    ids: Seq<Seq<char>>,
)
    requires
        extends(before, after),
        chains_complete(before, room, ids),
    ensures
        chains_complete(after, room, ids),
        auth_difference(after, room, ids) == auth_difference(before, room, ids),
{
    assert forall|i: int, x: Seq<char>|
        0 <= i < ids.len() implies #[trigger] in_chain(after, room, ids[i], x) == in_chain(
        before,
        room,
        ids[i],
        x,
    ) by {
        assert forall|n: nat| #[trigger]
            leads(after, room, ids[i], x, n) == leads(before, room, ids[i], x, n) by {
            lemma_leads_kept(before, after, room, ids[i], x, n);
        }
        if in_chain(before, room, ids[i], x) {
            let n = choose|n: nat| n > 0 && #[trigger] leads(before, room, ids[i], x, n);
            assert(leads(after, room, ids[i], x, n));
        }
    }
    assert forall|i: int| 0 <= i < ids.len() implies chain_complete(
        after,
        room,
        #[trigger] ids[i],
    ) by {
        assert forall|x: Seq<char>, n: nat| #[trigger]
            leads(after, room, ids[i], x, n) implies find_pdu(after, room, x) is Some by {
            lemma_leads_kept(before, after, room, ids[i], x, n);
            assert(leads(before, room, ids[i], x, n));
            assert(find_pdu(before, room, x) is Some);
        }
    }
    assert(auth_difference(after, room, ids) =~= auth_difference(before, room, ids)) by {
        assert forall|x: Seq<char>|
            auth_difference(after, room, ids).contains(x) == auth_difference(
                before,
                room,
                ids,
            ).contains(x) by {
            if auth_difference(after, room, ids).contains(x) {
                let i = choose|i: int|
                    0 <= i < ids.len() && in_chain(after, room, #[trigger] ids[i], x);
                let j = choose|j: int|
                    0 <= j < ids.len() && !in_chain(after, room, #[trigger] ids[j], x);
                assert(in_chain(before, room, ids[i], x) && !in_chain(before, room, ids[j], x));
            }
            if auth_difference(before, room, ids).contains(x) {
                let i = choose|i: int|
                    0 <= i < ids.len() && in_chain(before, room, #[trigger] ids[i], x);
                let j = choose|j: int|
                    0 <= j < ids.len() && !in_chain(before, room, #[trigger] ids[j], x);
                assert(in_chain(after, room, ids[i], x) && !in_chain(after, room, ids[j], x));
            }
        }
    }
}

proof fn lemma_level_kept(
    before: Map<Seq<char>, RoomView>,
    after: Map<Seq<char>, RoomView>,
    room: Seq<char>,
    sender: Seq<char>,
    ids: Seq<Seq<char>>,
    creator: Option<Seq<char>>,
)
    requires
        extends(before, after),
        level_by(before, room, sender, ids, creator) is Some,
    ensures
        level_by(after, room, sender, ids, creator) == level_by(
            before,
            room,
            sender,
            ids,
            creator,
        ),
    decreases ids.len(),
{
    if ids.len() > 0 {
        let e = find_pdu(before, room, ids[0])->0;
        match e.pdu.content {
            crate::events::ContentView::PowerLevels(_) => {},
            crate::events::ContentView::Create(create) => {
                lemma_level_kept(
                    before,
                    after,
                    room,
                    sender,
                    ids.drop_first(),
                    Some(create.creator),
                );
            },
            _ => {
                lemma_level_kept(before, after, room, sender, ids.drop_first(), creator);
            },
        }
    }
}

proof fn lemma_content_kept(
    before: Map<Seq<char>, RoomView>,
    after: Map<Seq<char>, RoomView>,
    state: StateView,
    kind: ContentKind,
    key: Seq<char>,
)
    requires
        extends(before, after),
        state_content(before, state, kind, key) is Some,
    ensures
        state_content(after, state, kind, key) == state_content(before, state, kind, key),
{
}

/// What the rules say of an event stays as it is while rooms grow.
pub proof fn law_verdict_kept(
    before: Map<Seq<char>, RoomView>,
    after: Map<Seq<char>, RoomView>,
    pdu: PduView,
    state: StateView,
)
    requires
        extends(before, after),
        auth_rules(before, pdu, state) is Some,
    ensures
        auth_rules(after, pdu, state) == auth_rules(before, pdu, state),
{
    if !(pdu.content is Create) {
        let ids = pdu.auth_events;
        assert(cites_state(before, pdu.room_id, ids));
        assert forall|i: int| 0 <= i < ids.len() implies find_pdu(
            after,
            pdu.room_id,
            #[trigger] ids[i],
        ) == find_pdu(before, pdu.room_id, ids[i]) by {
            assert(find_pdu(before, pdu.room_id, ids[i]) is Some);
        }
        assert(cites_state(after, pdu.room_id, ids)) by {
            assert forall|i: int| 0 <= i < ids.len() implies find_pdu(
                after,
                pdu.room_id,
                #[trigger] ids[i],
            ) is Some && find_pdu(after, pdu.room_id, ids[i])->0.pdu.state_key is Some by {
                assert(find_pdu(before, pdu.room_id, ids[i]) is Some);
            }
        }
        assert(cites_create(after, pdu.room_id, ids) == cites_create(before, pdu.room_id, ids)) by {
            if cites_create(before, pdu.room_id, ids) {
                let i = choose|i: int|
                    0 <= i < ids.len() && crate::storage::is_state_of(
                        find_pdu(before, pdu.room_id, #[trigger] ids[i])->0,
                        "m.room.create"@,
                        ""@,
                    );
                assert(find_pdu(after, pdu.room_id, ids[i]) == find_pdu(
                    before,
                    pdu.room_id,
                    ids[i],
                ));
            }
            if cites_create(after, pdu.room_id, ids) {
                let i = choose|i: int|
                    0 <= i < ids.len() && crate::storage::is_state_of(
                        find_pdu(after, pdu.room_id, #[trigger] ids[i])->0,
                        "m.room.create"@,
                        ""@,
                    );
                assert(find_pdu(after, pdu.room_id, ids[i]) == find_pdu(
                    before,
                    pdu.room_id,
                    ids[i],
                ));
            }
        }
        assert forall|kind: ContentKind, key: Seq<char>|
            state_content(before, state, kind, key) is Some implies #[trigger] state_content(
            after,
            state,
            kind,
            key,
        ) == state_content(before, state, kind, key) by {
            lemma_content_kept(before, after, state, kind, key);
        }
    }
}

proof fn lemma_cited_state_kept(
    before: Map<Seq<char>, RoomView>,
    after: Map<Seq<char>, RoomView>,
    room: Seq<char>,
    ids: Seq<Seq<char>>,
    state: StateView,
)
    requires
        extends(before, after),
        cited_state(before, room, ids, state) is Some,
    ensures
        cited_state(after, room, ids, state) == cited_state(before, room, ids, state),
    decreases ids.len(),
{
    if ids.len() > 0 {
        let e = find_pdu(before, room, ids[0])->0;
        if !e.passed {
            lemma_cited_state_kept(before, after, room, ids.drop_first(), state);
        } else {
            lemma_cited_state_kept(before, after, room, ids.drop_first(), with_event(state, e));
        }
    }
}

proof fn lemma_apply_power_kept(
    before: Map<Seq<char>, RoomView>,
    after: Map<Seq<char>, RoomView>,
    room: Seq<char>,
    partial: Map<(Seq<char>, Seq<char>), Seq<char>>,
    order: Seq<Seq<char>>,
)
    requires
        extends(before, after),
        apply_power(before, room, partial, order) is Some,
    ensures
        apply_power(after, room, partial, order) == apply_power(before, room, partial, order),
    decreases order.len(),
{
    if order.len() > 0 {
        let e = find_pdu(before, room, order[0])->0;
        match e.pdu.state_key {
            None => {
                lemma_apply_power_kept(before, after, room, partial, order.drop_first());
            },
            Some(key) => {
                lemma_cited_state_kept(before, after, room, e.pdu.auth_events, empty_state(room));
                let cited = cited_state(before, room, e.pdu.auth_events, empty_state(room))->0;
                law_verdict_kept(before, after, e.pdu, power_base(cited, partial));
                lemma_apply_power_kept(
                    before,
                    after,
                    room,
                    partial.insert((e.pdu.content.label(), key), order[0]),
                    order.drop_first(),
                );
            },
        }
    }
}

proof fn lemma_first_levels_kept(
    before: Map<Seq<char>, RoomView>,
    after: Map<Seq<char>, RoomView>,
    room: Seq<char>,
    ids: Seq<Seq<char>>,
)
    requires
        extends(before, after),
        first_levels(before, room, ids) is Some,
    ensures
        first_levels(after, room, ids) == first_levels(before, room, ids),
    decreases ids.len(),
{
    if ids.len() > 0 && !(find_pdu(before, room, ids[0])->0.pdu.content is PowerLevels) {
        lemma_first_levels_kept(before, after, room, ids.drop_first());
    }
}

proof fn lemma_cited_levels_kept(
    before: Map<Seq<char>, RoomView>,
    after: Map<Seq<char>, RoomView>,
    room: Seq<char>,
    id: Seq<char>,
)
    requires
        extends(before, after),
        cited_levels(before, room, id) is Some,
    ensures
        cited_levels(after, room, id) == cited_levels(before, room, id),
{
    lemma_first_levels_kept(
        before,
        after,
        room,
        find_pdu(before, room, id)->0.pdu.auth_events,
    );
}

proof fn lemma_mainline_within_kept(
    before: Map<Seq<char>, RoomView>,
    after: Map<Seq<char>, RoomView>,
    room: Seq<char>,
    id: Seq<char>,
    steps: nat,
)
    requires
        extends(before, after),
        mainline_within(before, room, id, steps) is Some,
    ensures
        mainline_within(after, room, id, steps) == mainline_within(before, room, id, steps),
    decreases steps,
{
    lemma_cited_levels_kept(before, after, room, id);
    match cited_levels(before, room, id) {
        Some(Some(parent)) => {
            lemma_mainline_within_kept(before, after, room, parent, (steps - 1) as nat);
        },
        _ => {},
    }
}

proof fn lemma_mainline_kept(
    before: Map<Seq<char>, RoomView>,
    after: Map<Seq<char>, RoomView>,
    room: Seq<char>,
    id: Seq<char>,
)
    requires
        extends(before, after),
        mainline(before, room, id) is Some,
    ensures
        mainline(after, room, id) == mainline(before, room, id),
{
    let steps = choose|steps: nat| #[trigger] mainline_within(before, room, id, steps) is Some;
    assert(mainline_within(before, room, id, steps) is Some);
    lemma_mainline_within_kept(before, after, room, id, steps);
    lemma_mainline(after, room, id, steps);
}

proof fn lemma_closest_within_kept(
    before: Map<Seq<char>, RoomView>,
    after: Map<Seq<char>, RoomView>,
    room: Seq<char>,
    line: Seq<Seq<char>>,
    id: Seq<char>,
    steps: nat,
)
    requires
        extends(before, after),
        closest_within(before, room, line, id, steps) is Some,
    ensures
        closest_within(after, room, line, id, steps) == closest_within(
            before,
            room,
            line,
            id,
            steps,
        ),
    decreases steps,
{
    if !line.contains(id) {
        lemma_cited_levels_kept(before, after, room, id);
        match cited_levels(before, room, id) {
            Some(Some(parent)) => {
                lemma_closest_within_kept(before, after, room, line, parent, (steps - 1) as nat);
            },
            _ => {},
        }
    }
}

proof fn lemma_closest_kept(
    before: Map<Seq<char>, RoomView>,
    after: Map<Seq<char>, RoomView>,
    room: Seq<char>,
    line: Seq<Seq<char>>,
    id: Seq<char>,
)
    requires
        extends(before, after),
        closest(before, room, line, id) is Some,
    ensures
        closest(after, room, line, id) == closest(before, room, line, id),
{
    let steps = choose|steps: nat| #[trigger]
        closest_within(before, room, line, id, steps) is Some;
    assert(closest_within(before, room, line, id, steps) is Some);
    lemma_closest_within_kept(before, after, room, line, id, steps);
    lemma_closest(after, room, line, id, steps);
}

proof fn lemma_first_state_kept(
    before: Map<Seq<char>, RoomView>,
    after: Map<Seq<char>, RoomView>,
    room: Seq<char>,
    ids: Seq<Seq<char>>,
    key: (Seq<char>, Seq<char>),
)
    requires
        extends(before, after),
        forall|i: int| 0 <= i < ids.len() ==> find_pdu(before, room, #[trigger] ids[i]) is Some,
    ensures
        first_state(after, room, ids, key) == first_state(before, room, ids, key),
    decreases ids.len(),
{
    if ids.len() > 0 {
        assert(find_pdu(before, room, ids[0]) is Some);
        assert forall|i: int| 0 <= i < ids.drop_first().len() implies find_pdu(
            before,
            room,
            #[trigger] ids.drop_first()[i],
        ) is Some by {
            assert(find_pdu(before, room, ids[i + 1]) is Some);
        }
        lemma_first_state_kept(before, after, room, ids.drop_first(), key);
    }
}

proof fn lemma_apply_plain_kept(
    before: Map<Seq<char>, RoomView>,
    after: Map<Seq<char>, RoomView>,
    state: StateView,
    order: Seq<Seq<char>>,
)
    requires
        extends(before, after),
        at_home(before),
        forall|i: int|
            0 <= i < order.len() ==> find_pdu(before, state.room_id, #[trigger] order[i]) is Some,
        apply_plain(before, state, order) is Some,
    ensures
        apply_plain(after, state, order) == apply_plain(before, state, order),
    decreases order.len(),
{
    if order.len() > 0 {
        let room = state.room_id;
        assert(find_pdu(before, room, order[0]) is Some);
        let e = find_pdu(before, room, order[0])->0;
        assert forall|i: int| 0 <= i < order.drop_first().len() implies find_pdu(
            before,
            room,
            #[trigger] order.drop_first()[i],
        ) is Some by {
            assert(find_pdu(before, room, order[i + 1]) is Some);
        }
        if e.pdu.state_key is None {
            lemma_apply_plain_kept(before, after, state, order.drop_first());
        } else {
            let base = plain_base(before, state, e.pdu);
            law_verdict_kept(before, after, e.pdu, base);
            if e.pdu.content is Create {
                assert(auth_rules(after, e.pdu, plain_base(after, state, e.pdu)) == auth_rules(
                    after,
                    e.pdu,
                    base,
                ));
            } else {
                let ids = e.pdu.auth_events;
                assert(cites_state(before, room, ids));
                assert forall|key: (Seq<char>, Seq<char>)| #[trigger]
                    first_state(after, room, ids, key) == first_state(before, room, ids, key) by {
                    lemma_first_state_kept(before, after, room, ids, key);
                }
                assert(plain_base(after, state, e.pdu).map =~= base.map);
            }
            match auth_rules(before, e.pdu, base) {
                Some(AuthStatus::Pass) => {
                    lemma_apply_plain_kept(before, after, with_event(state, e), order.drop_first());
                },
                _ => {
                    lemma_apply_plain_kept(before, after, state, order.drop_first());
                },
            }
        }
    }
}

proof fn lemma_power_order_kept(
    before: Map<Seq<char>, RoomView>,
    after: Map<Seq<char>, RoomView>,
    room: Seq<char>,
    ids: Set<Seq<char>>,
)
    requires
        extends(before, after),
        ids.finite(),
        all_found(before, room, ids),
        power_order(before, room, ids) is Some,
    ensures
        power_order(after, room, ids) == power_order(before, room, ids),
    decreases ids.len(),
{
    if ids.len() > 0 {
        let round = uncited(before, room, ids);
        assert(uncited(after, room, ids) =~= round) by {
            assert forall|x: Seq<char>, y: Seq<char>| ids.contains(y) implies #[trigger] cites(
                after,
                room,
                y,
                x,
            ) == cites(before, room, y, x) by {
                assert(find_pdu(before, room, y) is Some);
            }
        }
        lemma_round_smaller(before, room, ids);
        assert forall|x: Seq<char>| #[trigger] round.contains(x) implies power_key(after, room, x)
            == power_key(before, room, x) && sender_level(
            after,
            find_pdu(after, room, x)->0.pdu.room_id,
            x,
        ) is Some by {
            assert(ids.contains(x));
            let e = find_pdu(before, room, x)->0;
            assert(sender_level(before, e.pdu.room_id, x) is Some);
            let f = find_pdu(before, e.pdu.room_id, x)->0;
            lemma_level_kept(
                before,
                after,
                e.pdu.room_id,
                f.pdu.sender,
                f.pdu.auth_events,
                None,
            );
        }
        assert(levels_known(after, room, round));
        assert(power_keys(after, room, round) =~= power_keys(before, room, round));
        lemma_power_order_kept(before, after, room, ids.difference(round));
    }
}

/// Events that are there are finite in number.
proof fn lemma_found_finite(
    rooms: Map<Seq<char>, RoomView>,
    room: Seq<char>,
    ids: Set<Seq<char>>,
)
    requires
        all_found(rooms, room, ids),
    ensures
        ids.finite(),
{
    let all = ids_of(events_of(rooms, room));
    lemma_ids_finite(events_of(rooms, room));
    assert forall|x: Seq<char>| ids.contains(x) implies all.contains(x) by {
        lemma_found(rooms, room, x);
    }
    vstd::set_lib::lemma_len_subset(ids, all);
}

proof fn lemma_after_plain_kept(
    before: Map<Seq<char>, RoomView>,
    after: Map<Seq<char>, RoomView>,
    room: Seq<char>,
    conflicted: Set<Seq<char>>,
    partial: Map<(Seq<char>, Seq<char>), Seq<char>>,
)
    requires
        extends(before, after),
        at_home(before),
        all_found(before, room, conflicted),
        after_plain(before, room, conflicted, partial) is Some,
    ensures
        after_plain(after, room, conflicted, partial) == after_plain(
            before,
            room,
            conflicted,
            partial,
        ),
{
    let start = partial[("m.room.power_levels"@, ""@)];
    lemma_mainline_kept(before, after, room, start);
    let line = mainline(before, room, start)->0;
    let plain = plain_events(before, room, conflicted);
    assert forall|x: Seq<char>| #[trigger] conflicted.contains(x) implies find_pdu(after, room, x)
        == find_pdu(before, room, x) by {
        assert(find_pdu(before, room, x) is Some);
    }
    assert(plain_events(after, room, conflicted) =~= plain);
    assert forall|x: Seq<char>| #[trigger] plain.contains(x) implies closest(after, room, line, x)
        == closest(before, room, line, x) && closest(after, room, line, x) is Some by {
        lemma_closest_kept(before, after, room, line, x);
    }
    assert(distances_known(after, room, line, plain));
    let keys = plain_keys(before, room, line, plain);
    assert(plain_keys(after, room, line, plain) =~= keys) by {
        assert forall|x: Seq<char>| #[trigger] plain.contains(x) implies plain_key(
            after,
            room,
            line,
            x,
        ) == plain_key(before, room, line, x) by {
            assert(conflicted.contains(x));
        }
    }
    lemma_found_finite(before, room, plain);
    let made = plain.map(|x: Seq<char>| plain_key(before, room, line, x));
    plain.lemma_map_finite(|x: Seq<char>| plain_key(before, room, line, x));
    assert(keys =~= made) by {
        assert forall|k: SortKeyView| keys.contains(k) implies made.contains(k) by {
            assert(plain.contains(k.id));
        }
    }
    lemma_sorted(keys);
    let order = sorted(keys);
    assert forall|i: int| 0 <= i < key_ids(order).len() implies find_pdu(
        before,
        room,
        #[trigger] key_ids(order)[i],
    ) is Some by {
        assert(order.to_set().contains(order[i]));
        assert(plain.contains(order[i].id));
        assert(conflicted.contains(order[i].id));
    }
    lemma_apply_plain_kept(
        before,
        after,
        StateView { room_id: room, map: partial },
        key_ids(order),
    );
}

proof fn lemma_combined_kept(
    before: Map<Seq<char>, RoomView>,
    after: Map<Seq<char>, RoomView>,
    room: Seq<char>,
    ids: Seq<Seq<char>>,
    states: Seq<Map<(Seq<char>, Seq<char>), Seq<char>>>,
)
    requires
        extends(before, after),
        at_home(before),
        combined(before, room, ids, states) is Some,
    ensures
        combined(after, room, ids, states) == combined(before, room, ids, states),
{
    reveal(combined);
    lemma_chains_kept(before, after, room, ids);
    let conflicted = full_conflicted(before, room, ids, states);
    assert(full_conflicted(after, room, ids, states) =~= conflicted);
    assert forall|x: Seq<char>| #[trigger] conflicted.contains(x) implies find_pdu(after, room, x)
        == find_pdu(before, room, x) && find_pdu(after, room, x) is Some by {
        assert(find_pdu(before, room, x) is Some);
    }
    assert(all_found(after, room, conflicted));
    let base = unconflicted(states);
    let power = power_events(before, room, conflicted);
    assert(power_events(after, room, conflicted) =~= power);
    assert(all_found(before, room, power)) by {
        assert forall|x: Seq<char>| #[trigger] power.contains(x) implies find_pdu(before, room, x)
            is Some by {
            assert(conflicted.contains(x));
        }
    }
    lemma_found_finite(before, room, power);
    lemma_power_order_kept(before, after, room, power);
    lemma_apply_power_kept(before, after, room, base, power_order(before, room, power)->0);
    let partial = after_power(before, room, conflicted, base)->0;
    lemma_after_plain_kept(before, after, room, conflicted, partial);
}

proof fn lemma_resolved_within_kept(
    before: Map<Seq<char>, RoomView>,
    after: Map<Seq<char>, RoomView>,
    room: Seq<char>,
    ids: Seq<Seq<char>>,
    depth: nat,
)
    requires
        extends(before, after),
        at_home(before),
        resolved_within(before, room, ids, depth) is Some,
    ensures
        resolved_within(after, room, ids, depth) == resolved_within(before, room, ids, depth),
    decreases depth,
{
    if ids.len() > 0 {
        if names_one(ids) {
            let e = find_pdu(before, room, ids[0])->0;
            lemma_resolved_within_kept(
                before,
                after,
                room,
                e.pdu.prev_events,
                (depth - 1) as nat,
            );
        } else {
            let less = (depth - 1) as nat;
            let near = branches_within(before, room, ids, less);
            assert(near is Some);
            assert forall|i: int| 0 <= i < ids.len() implies resolved_within(
                after,
                room,
                seq![#[trigger] ids[i]],
                less,
            ) == resolved_within(before, room, seq![ids[i]], less) && resolved_within(
                after,
                room,
                seq![ids[i]],
                less,
            ) is Some by {
                assert(resolved_within(before, room, seq![ids[i]], less) is Some);
                lemma_resolved_within_kept(before, after, room, seq![ids[i]], less);
            }
            let far = branches_within(after, room, ids, less);
            assert(far is Some);
            assert(far->0 =~= near->0);
            lemma_combined_kept(before, after, room, ids, near->0);
        }
    }
}

/// The state after some events stays as it is while rooms grow.
pub proof fn law_state_kept(
    before: Map<Seq<char>, RoomView>,
    after: Map<Seq<char>, RoomView>,
    room: Seq<char>,
    ids: Seq<Seq<char>>,
)
    requires
        extends(before, after),
        at_home(before),
        resolved(before, room, ids) is Some,
    ensures
        resolved(after, room, ids) == resolved(before, room, ids),
{
    let depth = choose|depth: nat| #[trigger] resolved_within(before, room, ids, depth) is Some;
    assert(resolved_within(before, room, ids, depth) is Some);
    lemma_resolved_within_kept(before, after, room, ids, depth);
    lemma_resolved(after, room, ids, depth);
}

/// An event that is put at the end is found where none before it has its identifier.
pub proof fn lemma_found_after_push(events: Seq<StoredView>, e: StoredView, id: Seq<char>)
    ensures
        find_in(events.push(e), id) == (match find_in(events, id) {
            Some(f) => Some(f),
            None => if e.id() == id {
                Some(e)
            } else {
                None
            },
        }),
    decreases events.len(),
{
    if events.len() == 0 {
        assert(events.push(e).drop_first() =~= events);
    } else {
        assert(events.push(e).drop_first() =~= events.drop_first().push(e));
        lemma_found_after_push(events.drop_first(), e, id);
    }
}

/// A room grows with every event but one that starts it afresh.
pub proof fn law_rooms_grow(rooms: Map<Seq<char>, RoomView>, e: StoredView)
    requires
        add_one(rooms, e) is Some,
        e.pdu.content is Create ==> !rooms.contains_key(e.pdu.room_id),
    ensures
        extends(rooms, add_one(rooms, e)->0),
{
    let after = add_one(rooms, e)->0;
    assert forall|room: Seq<char>, id: Seq<char>| #[trigger]
        find_pdu(rooms, room, id) is Some implies find_pdu(after, room, id) == find_pdu(
        rooms,
        room,
        id,
    ) by {
        if room == e.pdu.room_id {
            lemma_found_after_push(rooms[room].events, e, id);
        }
    }
}

/// Whether two collections of rooms hold the same events.
pub open spec fn same_events(
    before: Map<Seq<char>, RoomView>,
    after: Map<Seq<char>, RoomView>,
) -> bool {
    forall|room: Seq<char>|
        before.contains_key(room) == #[trigger] after.contains_key(room) && (after.contains_key(
            room,
        ) ==> after[room].events == before[room].events)
}

/// Rooms with the same events have the same events found in them.
pub proof fn lemma_same_events(
    before: Map<Seq<char>, RoomView>,
    after: Map<Seq<char>, RoomView>,
)
    requires
        same_events(before, after),
    ensures
        extends(before, after),
        at_home(before) ==> at_home(after),
{
    assert forall|room: Seq<char>, id: Seq<char>| #[trigger]
        find_pdu(after, room, id) == find_pdu(before, room, id) by {
        assert(before.contains_key(room) == after.contains_key(room));
    }
}

/// Events stay in the rooms that they belong to.
pub proof fn law_stay_home(rooms: Map<Seq<char>, RoomView>, e: StoredView)
    requires
        at_home(rooms),
        add_one(rooms, e) is Some,
    ensures
        at_home(add_one(rooms, e)->0),
{
    let after = add_one(rooms, e)->0;
    assert forall|room: Seq<char>, id: Seq<char>| #[trigger]
        find_pdu(after, room, id) is Some implies find_pdu(after, room, id)->0.pdu.room_id
        == room by {
        if room == e.pdu.room_id {
            let base = if e.pdu.content is Create {
                new_room().events
            } else {
                rooms[room].events
            };
            lemma_found_after_push(base, e, id);
            if find_in(base, id) is Some {
                assert(find_pdu(rooms, room, id) is Some);
            }
        } else {
            assert(find_pdu(rooms, room, id) is Some);
        }
    }
}

/// Events stay in the rooms that they belong to, however many are added.
pub proof fn law_all_stay_home(rooms: Map<Seq<char>, RoomView>, events: Seq<StoredView>)
    requires
        at_home(rooms),
        add_all(rooms, events) is Some,
    ensures
        at_home(add_all(rooms, events)->0),
    decreases events.len(),
{
    if events.len() > 0 {
        law_all_stay_home(rooms, events.drop_last());
        law_stay_home(add_all(rooms, events.drop_last())->0, events.last());
    }
}

} // verus!
