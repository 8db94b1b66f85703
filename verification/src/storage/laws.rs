//! What holds of everything that is kept.
use crate::events::laws::member;
use crate::events::pdu::StoredView;
use crate::events::room::Membership;
use crate::events::room_version::v4::PduView;
use crate::events::ContentView;
use crate::json::Json;
use crate::storage::postgres::{count_in, row_change, CountRow, RowChangeView};
use crate::storage::sled::{linked_names, next_position, ordering_bytes};
use crate::storage::{
    add_all, add_one, appended, contains_members, current_state, deadline, done_typing,
    ids_at_depth, latest_state, matching, max_depth, memberships_in, new_user, query_answer,
    query_end, searched, shows_ephemeral, still_typing, with_profile, with_room, with_typing,
    without_tokens_of, EventQuery, ProfileView, QueryType, QueryTypeView, QueryView, RoomView,
    StorageView,
};
use vstd::prelude::*;

verus! {

/// An event is added at the end of the history of its room, which keeps all else, and other rooms stay as
/// they are. Only a create event needs no room to be there, and it starts the room afresh.
pub proof fn law_event_added(
    rooms: Map<Seq<char>, RoomView>,
    e: StoredView,
    other: Seq<char>,
)
    ensures
        ({
            let room = e.pdu.room_id;
            let after = add_one(rooms, e);
            &&& after is None <==> !(e.pdu.content is Create) && !rooms.contains_key(room)
            &&& after is Some ==> after->0.contains_key(room) && (other != room
                ==> after->0.contains_key(other) == rooms.contains_key(other) && after->0[other]
                == rooms[other])
            &&& after is Some && !(e.pdu.content is Create) ==> after->0[room].events
                == rooms[room].events.push(e) && after->0[room].ephemeral == rooms[room].ephemeral
                && after->0[room].typing == rooms[room].typing
            &&& e.pdu.content is Create ==> after->0[room].events == seq![e]
                && after->0[room].ephemeral == Map::<Seq<char>, Json>::empty()
                && after->0[room].typing == Map::<Seq<char>, u64>::empty()
        }),
{
    if e.pdu.content is Create {
        assert(add_one(rooms, e)->0[e.pdu.room_id].events =~= seq![e]);
    }
}

/// An event that is appended stands at the end of the history of its room, whatever its type.
pub proof fn law_event_appended(
    rooms: Map<Seq<char>, RoomView>,
    e: StoredView,
    other: Seq<char>,
)
    ensures
        ({
            let room = e.pdu.room_id;
            let after = appended(rooms, e);
            &&& after.contains_key(room)
            &&& after[room].events == rooms[room].events.push(e)
            &&& after[room].ephemeral == rooms[room].ephemeral
            &&& after[room].typing == rooms[room].typing
            &&& other != room ==> after.contains_key(other) == rooms.contains_key(other)
                && after[other] == rooms[other]
        }),
{
}

/// Events are added one after the other: some and then more are the same as all of them.
pub proof fn law_added_in_turn(
    rooms: Map<Seq<char>, RoomView>,
    some: Seq<StoredView>,
    more: Seq<StoredView>,
)
    ensures
        add_all(rooms, some + more) == (match add_all(rooms, some) {
            Some(between) => add_all(between, more),
            None => None,
        }),
        add_all(rooms, Seq::empty()) == Some(rooms),
        more.len() == 1 ==> add_all(rooms, more) == add_one(rooms, more[0]),
    decreases more.len(),
{
    if more.len() == 0 {
        assert(some + more =~= some);
    } else {
        law_added_in_turn(rooms, some, more.drop_last());
        assert((some + more).drop_last() =~= some + more.drop_last());
        assert((some + more).last() == more.last());
    }
    if more.len() == 1 {
        assert(more.drop_last() =~= Seq::<StoredView>::empty());
        assert(add_all(rooms, more.drop_last()) == Some(rooms));
    }
}

/// Whether an event is the state event for a type and a key.
pub open spec fn is_about(e: StoredView, ty: Seq<char>, key: Seq<char>) -> bool {
    e.pdu.state_key == Some(key) && e.pdu.content.label() == ty
}

/// The latest state event for a type and a key is the last that there is.
pub proof fn law_latest_state(events: Seq<StoredView>, ty: Seq<char>, key: Seq<char>)
    ensures
        match latest_state(events, ty, key) {
            Some(e) => exists|i: int|
                0 <= i < events.len() && #[trigger] events[i] == e && is_about(events[i], ty, key)
                    && forall|j: int|
                    i < j < events.len() ==> !is_about(#[trigger] events[j], ty, key),
            None => forall|j: int| 0 <= j < events.len() ==> !is_about(#[trigger] events[j], ty, key),
        },
    decreases events.len(),
{
    if events.len() > 0 {
        let last = events.len() - 1;
        let rest = events.drop_last();
        law_latest_state(rest, ty, key);
        if is_about(events[last], ty, key) {
            assert(latest_state(events, ty, key) == Some(events[last]));
        } else {
            match latest_state(rest, ty, key) {
                Some(e) => {
                    let i = choose|i: int|
                        0 <= i < rest.len() && #[trigger] rest[i] == e && is_about(rest[i], ty, key)
                            && forall|j: int|
                            i < j < rest.len() ==> !is_about(#[trigger] rest[j], ty, key);
                    assert(events[i] == e);
                    assert forall|j: int| i < j < events.len() implies !is_about(
                        #[trigger] events[j],
                        ty,
                        key,
                    ) by {
                        if j < last {
                            assert(rest[j] == events[j]);
                        }
                    }
                },
                None => {
                    assert forall|j: int| 0 <= j < events.len() implies !is_about(
                        #[trigger] events[j],
                        ty,
                        key,
                    ) by {
                        if j < last {
                            assert(rest[j] == events[j]);
                        }
                    }
                },
            }
        }
    }
}

/// Whether an event is a state event that no later one replaces.
pub open spec fn stands_at(events: Seq<StoredView>, i: int) -> bool {
    &&& 0 <= i < events.len()
    &&& events[i].pdu.state_key is Some
    &&& forall|j: int|
        i < j < events.len() ==> !((#[trigger] events[j]).pdu.state_key == events[i].pdu.state_key
            && events[j].pdu.content.label() == events[i].pdu.content.label())
}

/// The current state is made of the state events that no later one replaces, in the order in which they
/// came.
pub proof fn law_current_state(events: Seq<StoredView>) -> (places: Seq<int>)
    ensures
        places.len() == current_state(events).len(),
        forall|k: int|
            0 <= k < places.len() ==> stands_at(events, #[trigger] places[k]) && current_state(
                events,
            )[k] == events[places[k]],
        forall|k: int, l: int| 0 <= k < l < places.len() ==> #[trigger] places[k] < #[trigger] places[l],
        forall|i: int| #[trigger] stands_at(events, i) ==> places.contains(i),
    decreases events.len(),
{
    if events.len() == 0 {
        Seq::empty()
    } else {
        let last = events.len() - 1;
        let rest = events.drop_last();
        let fewer = law_current_state(rest);
        let e = events[last];
        let before = current_state(rest);
        match e.pdu.state_key {
            None => {
                assert forall|i: int| stands_at(events, i) == stands_at(rest, i) by {
                    lemma_stands(events, i);
                }
                fewer
            },
            Some(key) => {
                let ty = e.pdu.content.label();
                let kept = lemma_kept_places(rest, before, fewer, ty, key);
                let places = kept.push(last);
                assert forall|i: int| #[trigger] stands_at(events, i) <==> i == last || (stands_at(
                    rest,
                    i,
                ) && !is_about(rest[i], ty, key)) by {
                    lemma_stands(events, i);
                }
                assert forall|i: int| #[trigger] stands_at(events, i) implies places.contains(i) by {
                    if i == last {
                        assert(places[places.len() - 1] == i);
                    } else {
                        assert(fewer.contains(i));
                        assert(kept.contains(i));
                        let k = choose|k: int| 0 <= k < kept.len() && kept[k] == i;
                        assert(places[k] == i);
                    }
                }
                assert forall|k: int| 0 <= k < places.len() implies stands_at(
                    events,
                    #[trigger] places[k],
                ) && current_state(events)[k] == events[places[k]] by {
                    if k < kept.len() {
                        assert(places[k] == kept[k]);
                        assert(stands_at(rest, kept[k]));
                        assert(!is_about(rest[kept[k]], ty, key));
                        assert(stands_at(events, kept[k]));
                        assert(rest[kept[k]] == events[kept[k]]);
                    } else {
                        assert(stands_at(events, last));
                    }
                }
                assert forall|k: int, l: int| 0 <= k < l < places.len() implies #[trigger] places[k]
                    < #[trigger] places[l] by {
                    assert(places[k] == kept[k]);
                    assert(stands_at(rest, kept[k]));
                    if l < kept.len() {
                        assert(places[l] == kept[l]);
                    }
                }
                places
            },
        }
    }
}

proof fn lemma_stands(events: Seq<StoredView>, i: int)
    requires
        events.len() > 0,
    ensures
        ({
            let last = events.len() - 1;
            let rest = events.drop_last();
            let e = events[last];
            stands_at(events, i) <==> (i == last && e.pdu.state_key is Some) || (stands_at(rest, i)
                && !(e.pdu.state_key == rest[i].pdu.state_key && e.pdu.content.label()
                == rest[i].pdu.content.label()))
        }),
{
    let last = events.len() - 1;
    let rest = events.drop_last();
    if stands_at(events, i) && i < last {
        assert(rest[i] == events[i]);
        assert forall|j: int| i < j < rest.len() implies !((
        #[trigger] rest[j]).pdu.state_key == rest[i].pdu.state_key && rest[j].pdu.content.label()
            == rest[i].pdu.content.label()) by {
            assert(rest[j] == events[j]);
        }
        assert(!(events[last].pdu.state_key == events[i].pdu.state_key
            && events[last].pdu.content.label() == events[i].pdu.content.label()));
    }
    if stands_at(rest, i) && !(events[last].pdu.state_key == rest[i].pdu.state_key
        && events[last].pdu.content.label() == rest[i].pdu.content.label()) {
        assert(rest[i] == events[i]);
        assert forall|j: int| i < j < events.len() implies !((
        #[trigger] events[j]).pdu.state_key == events[i].pdu.state_key
            && events[j].pdu.content.label() == events[i].pdu.content.label()) by {
            if j < last {
                assert(rest[j] == events[j]);
            }
        }
    }
}

proof fn lemma_kept_places(
    all: Seq<StoredView>,
    events: Seq<StoredView>,
    places: Seq<int>,
    ty: Seq<char>,
    key: Seq<char>,
) -> (kept: Seq<int>)
    requires
        places.len() == events.len(),
        forall|k: int|
            0 <= k < places.len() ==> 0 <= #[trigger] places[k] < all.len() && events[k]
                == all[places[k]],
        forall|k: int, l: int| 0 <= k < l < places.len() ==> #[trigger] places[k] < #[trigger] places[l],
    ensures
        kept.len() == crate::storage::without_state(events, ty, key).len(),
        forall|k: int|
            0 <= k < kept.len() ==> places.contains(#[trigger] kept[k]) && 0 <= kept[k] < all.len()
                && !is_about(all[kept[k]], ty, key) && crate::storage::without_state(
                events,
                ty,
                key,
            )[k] == all[kept[k]],
        forall|k: int, l: int| 0 <= k < l < kept.len() ==> #[trigger] kept[k] < #[trigger] kept[l],
        forall|i: int|
            places.contains(i) && !is_about(all[i], ty, key) ==> #[trigger] kept.contains(i),
    decreases events.len(),
{
    if events.len() == 0 {
        assert(places.len() == 0);
        Seq::empty()
    } else {
        let last = events.len() - 1;
        let fewer = lemma_kept_places(all, events.drop_last(), places.drop_last(), ty, key);
        assert(places[last] == places[last]);
        let kept = if is_about(events[last], ty, key) {
            fewer
        } else {
            fewer.push(places[last])
        };
        assert forall|k: int| 0 <= k < kept.len() implies places.contains(#[trigger] kept[k]) && 0
            <= kept[k] < all.len() && !is_about(all[kept[k]], ty, key)
            && crate::storage::without_state(events, ty, key)[k] == all[kept[k]] by {
            if k < fewer.len() {
                assert(kept[k] == fewer[k]);
                let m = choose|m: int|
                    0 <= m < places.drop_last().len() && places.drop_last()[m] == fewer[k];
                assert(places[m] == kept[k]);
            } else {
                assert(places[last] == kept[k]);
            }
        }
        assert forall|k: int, l: int| 0 <= k < l < kept.len() implies #[trigger] kept[k]
            < #[trigger] kept[l] by {
            assert(kept[k] == fewer[k]);
            if l < fewer.len() {
                assert(kept[l] == fewer[l]);
            } else {
                let m = choose|m: int|
                    0 <= m < places.drop_last().len() && places.drop_last()[m] == fewer[k];
                assert(places[m] < places[last]);
            }
        }
        assert forall|i: int|
            places.contains(i) && !is_about(all[i], ty, key) implies #[trigger] kept.contains(
            i,
        ) by {
            let m = choose|m: int| 0 <= m < places.len() && places[m] == i;
            if m < last {
                assert(places.drop_last()[m] == i);
                assert(fewer.contains(i));
                let k = choose|k: int| 0 <= k < fewer.len() && fewer[k] == i;
                assert(kept[k] == i);
            } else {
                assert(kept[kept.len() - 1] == i);
            }
        }
        kept
    }
}

/// Whether an event is asked for: its sender, its type and, of the state, its key are not excluded, and are
/// listed where anything is listed, and its content has all members that are asked for.
pub open spec fn asked_for(query: QueryView, pdu: PduView) -> bool {
    &&& !query.not_senders.contains(pdu.sender)
    &&& query.senders.len() > 0 ==> query.senders.contains(pdu.sender)
    &&& !query.not_types.contains(pdu.content.label())
    &&& query.types.len() > 0 ==> query.types.contains(pdu.content.label())
    &&& query.query_type matches QueryTypeView::State { state_keys, not_state_keys, .. } ==> (
    pdu.state_key matches Some(key) && !not_state_keys.contains(key) && (state_keys.len() > 0
        ==> state_keys.contains(key)))
    &&& query.contains_json matches Some(wanted) ==> forall|name: Seq<char>|
        wanted->Object_0.contains_key(name) ==> #[trigger] member(pdu.content.json(), name) == Some(
            wanted->Object_0[name],
        )
}

proof fn lemma_asked_for(query: QueryView, pdu: PduView)
    ensures
        query.matches(pdu) == asked_for(query, pdu),
{
    if query.contains_json is Some {
        let wanted = query.contains_json->0->Object_0;
        let content = pdu.content.json();
        if query.matches(pdu) {
            assert forall|name: Seq<char>| wanted.contains_key(name) implies #[trigger] member(
                content,
                name,
            ) == Some(wanted[name]) by {
                assert(wanted.contains_key(name));
            }
        }
        if asked_for(query, pdu) {
            assert forall|key: Seq<char>| #[trigger] wanted.contains_key(key) implies content
                is Object && content->Object_0.contains_key(key) && content->Object_0[key]
                == wanted[key] by {
                assert(member(content, key) == Some(wanted[key]));
            }
            assert(contains_members(content, wanted));
        }
    }
}

/// The answer to a question are those of the events among which it looks that are asked for, in their
/// order.
pub proof fn law_answer(events: Seq<StoredView>, query: QueryView)
    ensures
        query_answer(events, query) == searched(events, query).filter(
            |e: StoredView| asked_for(query, e.pdu),
        ),
{
    lemma_matching(searched(events, query), query);
}

proof fn lemma_matching(events: Seq<StoredView>, query: QueryView)
    ensures
        matching(events, query) == events.filter(|e: StoredView| asked_for(query, e.pdu)),
    decreases events.len(),
{
    reveal(Seq::filter);
    if events.len() > 0 {
        lemma_matching(events.drop_last(), query);
        lemma_asked_for(query, events.last().pdu);
    }
}

/// A question for the timeline looks at the events from one position to another, both of them among them,
/// or to the end where no other is named; one for the state at the current state up to there. Beyond the
/// history it finds nothing.
pub proof fn law_searched(events: Seq<StoredView>, query: QueryView, i: int)
    requires
        0 < events.len() <= usize::MAX,
    ensures
        ({
            let found = searched(events, query);
            match query.query_type {
                QueryTypeView::Timeline { from, to } => {
                    let end = if to is Some {
                        to->0 as int
                    } else {
                        events.len() - 1
                    };
                    &&& query_end(events, query) == end
                    &&& from <= end < events.len() ==> found.len() == end - from + 1 && (0 <= i
                        < found.len() ==> found[i] == events[from + i])
                    &&& !(from <= end < events.len()) ==> found.len() == 0
                },
                QueryTypeView::State { at, .. } => {
                    let end = if at is Some {
                        at->0 as int
                    } else {
                        events.len() - 1
                    };
                    &&& query_end(events, query) == end
                    &&& end < events.len() ==> found == current_state(events.take(end + 1))
                    &&& end >= events.len() ==> found.len() == 0
                },
            }
        }),
{
}

/// What a question is taken to ask is what its fields hold.
pub proof fn law_query_fields(query: EventQuery, i: int)
    ensures
        query@.room_id == query.room_id@,
        query@.senders.len() == query.senders@.len(),
        0 <= i < query.senders@.len() ==> query@.senders[i] == query.senders@[i]@,
        query@.not_senders.len() == query.not_senders@.len(),
        0 <= i < query.not_senders@.len() ==> query@.not_senders[i] == query.not_senders@[i]@,
        query@.types.len() == query.types@.len(),
        0 <= i < query.types@.len() ==> query@.types[i] == query.types@[i]@,
        query@.not_types.len() == query.not_types@.len(),
        0 <= i < query.not_types@.len() ==> query@.not_types[i] == query.not_types@[i]@,
        query@.contains_json is Some == query.contains_json is Some,
        query.contains_json is Some ==> query@.contains_json->0 == query.contains_json->0@,
        query.query_type matches QueryType::Timeline { from, to } ==> query@.query_type
            == (QueryTypeView::Timeline { from, to }),
        query.query_type matches QueryType::State { at, state_keys, not_state_keys } ==> (
        query@.query_type matches QueryTypeView::State { at: b, state_keys: k, not_state_keys: n }
            && b == at && k.len() == state_keys@.len() && n.len() == not_state_keys@.len() && (0
            <= i < state_keys@.len() ==> k[i] == state_keys@[i]@) && (0 <= i < not_state_keys@.len()
            ==> n[i] == not_state_keys@[i]@)),
{
}

/// The greatest depth is that of an event, and no event lies deeper.
pub proof fn law_greatest_depth(events: Seq<StoredView>)
    requires
        events.len() > 0,
    ensures
        forall|i: int| 0 <= i < events.len() ==> (#[trigger] events[i]).pdu.depth <= max_depth(events),
        exists|i: int|
            0 <= i < events.len() && (#[trigger] events[i]).pdu.depth == max_depth(events),
    decreases events.len(),
{
    let last = events.len() - 1;
    if events.len() == 1 {
        assert(events[0].pdu.depth == max_depth(events));
    } else {
        let rest = events.drop_last();
        law_greatest_depth(rest);
        let i = choose|i: int| 0 <= i < rest.len() && (#[trigger] rest[i]).pdu.depth == max_depth(rest);
        assert(events[i] == rest[i]);
        assert(events[last].pdu.depth == events.last().pdu.depth);
        assert forall|j: int| 0 <= j < events.len() implies (#[trigger] events[j]).pdu.depth
            <= max_depth(events) by {
            if j < last {
                assert(rest[j] == events[j]);
            }
        }
    }
}

/// The events at a depth are named in the order in which they came.
pub proof fn law_ids_at_depth(events: Seq<StoredView>, depth: i64)
    ensures
        ids_at_depth(events, depth) == events.filter(
            |e: StoredView| e.pdu.depth == depth,
        ).map_values(|e: StoredView| e.id()),
    decreases events.len(),
{
    reveal(Seq::filter);
    let at = |e: StoredView| e.pdu.depth == depth;
    let name = |e: StoredView| e.id();
    if events.len() > 0 {
        let rest = events.drop_last();
        law_ids_at_depth(rest, depth);
        let e = events.last();
        let found = rest.filter(at);
        if e.pdu.depth == depth {
            assert(events.filter(at) =~= found.push(e));
            assert(found.push(e).map_values(name) =~= found.map_values(name).push(e.id()));
        } else {
            assert(events.filter(at) =~= found);
        }
    } else {
        assert(events.filter(at).map_values(name) =~= Seq::<Seq<char>>::empty());
    }
}

/// The rooms of a user are those of which an event says how they stand to them, and the last one counts.
pub proof fn law_memberships(
    rooms: Map<Seq<char>, RoomView>,
    user: Seq<char>,
    room: Seq<char>,
    i: int,
)
    requires
        rooms.contains_key(room),
    ensures
        ({
            let events = rooms[room].events;
            let all = memberships_in(rooms, user);
            &&& 0 <= i < events.len() && is_about(events[i], "m.room.member"@, user) && (forall|
                j: int,
            | i < j < events.len() ==> !is_about(#[trigger] events[j], "m.room.member"@, user))
                && events[i].pdu.content is Member ==> all.contains_key(room) && all[room]
                == events[i].pdu.content->Member_0.membership
            &&& (forall|j: int|
                0 <= j < events.len() ==> !is_about(#[trigger] events[j], "m.room.member"@, user))
                ==> !all.contains_key(room)
        }),
{
    let events = rooms[room].events;
    law_latest_state(events, "m.room.member"@, user);
}

/// A user is typing as long as their time has not run out, and of those whose time has, others may be told.
pub proof fn law_typing(typing: Map<Seq<char>, u64>, now: u64, user: Seq<char>)
    ensures
        still_typing(typing, now).contains(user) <==> typing.contains_key(user) && typing[user] > now,
        done_typing(typing, now).contains(user) <==> typing.contains_key(user) && typing[user] < now,
{
}

/// The time of a user who is typing runs out after as many milliseconds as they say.
pub proof fn law_deadline(now: u64, timeout: u32)
    ensures
        now + timeout <= u64::MAX ==> deadline(now, timeout) == now + timeout,
        now + timeout > u64::MAX ==> deadline(now, timeout) == u64::MAX,
{
}

/// Someone who starts or stops typing changes nothing else of the room.
pub proof fn law_typing_changes(
    room: RoomView,
    user: Seq<char>,
    is_typing: bool,
    until: u64,
    other: Seq<char>,
)
    ensures
        ({
            let after = with_typing(room, user, is_typing, until);
            &&& after.events == room.events && after.ephemeral == room.ephemeral
            &&& after.typing.contains_key(user) == is_typing
            &&& is_typing ==> after.typing[user] == until
            &&& other != user ==> after.typing.contains_key(other) == room.typing.contains_key(other)
                && after.typing[other] == room.typing[other]
        }),
{
}

/// To log out everywhere takes away all tokens of the user of a token, and none of anyone else. A token of
/// nobody takes away nothing.
pub proof fn law_logged_out_everywhere(tokens: Map<u128, Seq<char>>, token: u128, other: u128)
    ensures
        ({
            let after = without_tokens_of(tokens, token);
            &&& tokens.contains_key(token) && tokens.contains_key(other) && tokens[other]
                == tokens[token] ==> !after.contains_key(other)
            &&& tokens.contains_key(other) && !(tokens.contains_key(token) && tokens[other]
                == tokens[token]) ==> after.contains_key(other) && after[other] == tokens[other]
            &&& !tokens.contains_key(other) ==> !after.contains_key(other)
        }),
{
}

/// Whoever is new has a password, no profile and no data.
pub proof fn law_new_user(hash: Seq<char>)
    ensures
        new_user(hash).password_hash == hash,
        new_user(hash).profile.avatar_url is None,
        new_user(hash).profile.displayname is None,
        new_user(hash).account_data == Map::<Seq<char>, Json>::empty(),
{
}

/// To put a profile or a room in place of one changes nothing else.
pub proof fn law_nothing_else(
    s: StorageView,
    name: Seq<char>,
    profile: ProfileView,
    room_id: Seq<char>,
    room: RoomView,
    other: Seq<char>,
)
    ensures
        ({
            let after = with_profile(s, name, profile);
            &&& after.users.contains_key(name) && after.users[name].profile == profile
            &&& after.users[name].password_hash == s.users[name].password_hash
            &&& after.users[name].account_data == s.users[name].account_data
            &&& other != name ==> after.users.contains_key(other) == s.users.contains_key(other)
                && after.users[other] == s.users[other]
            &&& after.tokens == s.tokens && after.txns == s.txns && after.batches == s.batches
                && after.rooms == s.rooms
        }),
        ({
            let after = with_room(s, room_id, room);
            &&& after.rooms.contains_key(room_id) && after.rooms[room_id] == room
            &&& other != room_id ==> after.rooms.contains_key(other) == s.rooms.contains_key(other)
                && after.rooms[other] == s.rooms[other]
            &&& after.tokens == s.tokens && after.txns == s.txns && after.batches == s.batches
                && after.users == s.users
        }),
{
}

/// A listing of the ephemeral events of a room shows them as they are, and users under `m.typing`, each
/// once.
pub proof fn law_ephemeral_shown(
    all: Map<Seq<char>, Json>,
    room: RoomView,
    typing: Set<Seq<char>>,
    ty: Seq<char>,
)
    requires
        shows_ephemeral(all, room, typing),
    ensures
        ty != "m.typing"@ ==> all.contains_key(ty) == room.ephemeral.contains_key(ty) && (
        all.contains_key(ty) ==> all[ty] == room.ephemeral[ty]),
        all.contains_key("m.typing"@),
        exists|order: Seq<Seq<char>>| #[trigger]
            order.no_duplicates() && order.to_set() == typing && crate::events::laws::lists(
                member(all["m.typing"@], "user_ids"@),
                order,
            ),
{
    if ty != "m.typing"@ {
        assert(all.remove("m.typing"@).contains_key(ty) == room.ephemeral.remove(
            "m.typing"@,
        ).contains_key(ty));
        assert(all.remove("m.typing"@)[ty] == room.ephemeral.remove("m.typing"@)[ty]);
    }
    let value = all["m.typing"@];
    let order = choose|order: Seq<Seq<char>>|
        order.no_duplicates() && order.to_set() == typing && value
            == #[trigger] crate::events::ephemeral::typing_json(order);
    assert(order.no_duplicates());
    assert(crate::events::laws::lists(member(value, "user_ids"@), order));
}

/// The events of a room stand in a store of ordered keys in the order in which they came: the first at
/// position 0, and each further one a position after the last.
pub proof fn law_positions(position: u32)
    ensures
        next_position(None) == Some(0u32),
        position < u32::MAX ==> next_position(Some(ordering_bytes(position))) == Some(
            (position + 1) as u32,
        ),
        next_position(Some(ordering_bytes(u32::MAX))) is None,
        ordering_bytes(position).len() == 5 && ordering_bytes(position)[0] == 0,
        position == ordering_bytes(position)[1] * 0x100_0000 + ordering_bytes(position)[2] * 0x1_0000
            + ordering_bytes(position)[3] * 0x100 + ordering_bytes(position)[4],
{
    crate::storage::sled::law_position_read_back(position);
    crate::storage::sled::law_position_read_back(u32::MAX);
}

/// Two events of a room are kept under different names.
pub proof fn law_names_apart(room: Seq<char>, a: Seq<char>, b: Seq<char>)
    requires
        linked_names(room, a) == linked_names(room, b),
    ensures
        a == b,
        linked_names(room, a).len() == room.len() + 1 + a.len(),
        linked_names(room, a).take(room.len() as int) == room,
        linked_names(room, a)[room.len() as int] == '_',
{
    reveal_strlit("_");
    assert(linked_names(room, a).skip(room.len() as int + 1) =~= a);
    assert(linked_names(room, b).skip(room.len() as int + 1) =~= b);
    assert(linked_names(room, a).take(room.len() as int) =~= room);
}

/// A relational store notes a room when it is created, how a user stands to a room when an event says so,
/// and nothing of those who leave.
pub proof fn law_rows(e: StoredView)
    ensures
        e.pdu.content is Create ==> row_change(e) == (RowChangeView::AddRoom {
            room_id: e.pdu.room_id,
        }),
        e.pdu.content matches ContentView::Member(m) && e.pdu.state_key is Some && m.membership
            == Membership::Leave ==> row_change(e) == (RowChangeView::RemoveMembership {
            user_id: e.pdu.state_key->0,
            room_id: e.pdu.room_id,
        }),
        e.pdu.content matches ContentView::Member(m) && e.pdu.state_key is Some && m.membership
            != Membership::Leave ==> (row_change(e) matches RowChangeView::SetMembership {
            user_id,
            room_id,
            membership,
            event_id,
        } && user_id == e.pdu.state_key->0 && room_id == e.pdu.room_id && event_id == e.id()
            && crate::events::room::membership_named(membership) == Some(
            e.pdu.content->Member_0.membership,
        )),
        !(e.pdu.content is Create) && !(e.pdu.content is Member && e.pdu.state_key is Some)
            ==> row_change(e) is Nothing,
{
    if e.pdu.content is Member {
        crate::events::room::law_membership_names(e.pdu.content->Member_0.membership);
    }
}

/// The count for a membership is that of the last row for it, and 0 without one.
pub proof fn law_counted_in_rows(rows: Seq<CountRow>, membership: Seq<char>)
    ensures
        (forall|i: int| 0 <= i < rows.len() ==> (#[trigger] rows[i]).membership@ != membership)
            ==> count_in(rows, membership) == 0,
        forall|i: int|
            0 <= i < rows.len() && rows[i].membership@ == membership && (forall|j: int|
                i < j < rows.len() ==> (#[trigger] rows[j]).membership@ != membership)
                ==> count_in(rows, membership) == (#[trigger] rows[i]).count,
    decreases rows.len(),
{
    if rows.len() > 0 {
        let rest = rows.drop_last();
        let last = rows.len() - 1;
        law_counted_in_rows(rest, membership);
        assert(rows[last] == rows.last());
        if rows[last].membership@ != membership {
            if forall|i: int| 0 <= i < rows.len() ==> (#[trigger] rows[i]).membership@ != membership {
                assert forall|i: int| 0 <= i < rest.len() implies (
                #[trigger] rest[i]).membership@ != membership by {
                    assert(rest[i] == rows[i]);
                }
            }
            assert forall|i: int|
                0 <= i < rows.len() && rows[i].membership@ == membership && (forall|j: int|
                    i < j < rows.len() ==> (#[trigger] rows[j]).membership@ != membership)
                implies count_in(rows, membership) == (#[trigger] rows[i]).count by {
                assert(rest[i] == rows[i]);
                assert forall|j: int| i < j < rest.len() implies (
                #[trigger] rest[j]).membership@ != membership by {
                    assert(rest[j] == rows[j]);
                }
            }
        } else {
            assert forall|i: int|
                0 <= i < rows.len() && rows[i].membership@ == membership && (forall|j: int|
                    i < j < rows.len() ==> (#[trigger] rows[j]).membership@ != membership)
                implies count_in(rows, membership) == (#[trigger] rows[i]).count by {
                if i < last {
                    assert(rows[last].membership@ != membership);
                }
            }
        }
    }
}

} // verus!
