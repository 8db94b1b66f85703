//! Which events an event rests on.
use crate::dict::KeySet;
use crate::error::ErrorKind;
use crate::events::pdu::StoredView;
use crate::storage::{db_failed, find_in, find_pdu, RoomView, Storage};
use crate::text::{copy_texts, texts};
use vstd::prelude::*;

verus! {

/// Whether an event of a room cites another as authority.
pub open spec fn cites(
    rooms: Map<Seq<char>, RoomView>,
    room: Seq<char>,
    a: Seq<char>,
    b: Seq<char>,
) -> bool {
    find_pdu(rooms, room, a) is Some && find_pdu(rooms, room, a)->0.pdu.auth_events.contains(b)
}

/// Whether a number of citations lead from one event to another.
pub open spec fn leads(
    rooms: Map<Seq<char>, RoomView>,
    room: Seq<char>,
    a: Seq<char>,
    b: Seq<char>,
    steps: nat,
) -> bool
    decreases steps,
{
    if steps == 0 {
        a == b
    } else {
        exists|mid: Seq<char>| #[trigger]
            cites(rooms, room, a, mid) && leads(rooms, room, mid, b, (steps - 1) as nat)
    }
}

/// Whether an event is in the auth chain of another.
pub open spec fn in_chain(
    rooms: Map<Seq<char>, RoomView>,
    room: Seq<char>,
    a: Seq<char>,
    x: Seq<char>,
) -> bool {
    exists|steps: nat| steps > 0 && #[trigger] leads(rooms, room, a, x, steps)
}

/// Whether an event and all of its auth chain are there.
pub open spec fn chain_complete(
    rooms: Map<Seq<char>, RoomView>,
    room: Seq<char>,
    a: Seq<char>,
) -> bool {
    forall|x: Seq<char>, steps: nat| #[trigger]
        leads(rooms, room, a, x, steps) ==> find_pdu(rooms, room, x) is Some
}

/// The events in the auth chains of some events.
pub open spec fn auth_chain(
    rooms: Map<Seq<char>, RoomView>,
    room: Seq<char>,
    ids: Seq<Seq<char>>,
) -> Set<Seq<char>> {
    Set::new(
        |x: Seq<char>| exists|i: int| 0 <= i < ids.len() && in_chain(rooms, room, #[trigger] ids[i], x),
    )
}

/// Whether some events and all of their auth chains are there.
pub open spec fn chains_complete(
    rooms: Map<Seq<char>, RoomView>,
    room: Seq<char>,
    ids: Seq<Seq<char>>,
) -> bool {
    forall|i: int| 0 <= i < ids.len() ==> chain_complete(rooms, room, #[trigger] ids[i])
}

/// The events that are in the auth chains of some of the events and not of all of them.
pub open spec fn auth_difference(
    rooms: Map<Seq<char>, RoomView>,
    room: Seq<char>,
    ids: Seq<Seq<char>>,
) -> Set<Seq<char>> {
    Set::new(
        |x: Seq<char>|
            (exists|i: int| 0 <= i < ids.len() && in_chain(rooms, room, #[trigger] ids[i], x)) && (
            exists|j: int| 0 <= j < ids.len() && !in_chain(rooms, room, #[trigger] ids[j], x)),
    )
}

/// The identifiers of the events of a room.
pub open spec fn ids_of(events: Seq<StoredView>) -> Set<Seq<char>>
    decreases events.len(),
{
    if events.len() == 0 {
        Set::empty()
    } else {
        ids_of(events.drop_last()).insert(events.last().id())
    }
}

/// The identifiers that the events of a room cite.
pub open spec fn cited_by(events: Seq<StoredView>) -> Set<Seq<char>>
    decreases events.len(),
{
    if events.len() == 0 {
        Set::empty()
    } else {
        cited_by(events.drop_last()).union(events.last().pdu.auth_events.to_set())
    }
}

/// The events of a room; none where the room is not there.
pub open spec fn events_of(rooms: Map<Seq<char>, RoomView>, room: Seq<char>) -> Seq<StoredView> {
    if rooms.contains_key(room) {
        rooms[room].events
    } else {
        Seq::empty()
    }
}

pub proof fn lemma_ids_finite(events: Seq<StoredView>)
    ensures
        ids_of(events).finite(),
    decreases events.len(),
{
    if events.len() > 0 {
        lemma_ids_finite(events.drop_last());
    }
}

pub proof fn lemma_cited_finite(events: Seq<StoredView>)
    ensures
        cited_by(events).finite(),
    decreases events.len(),
{
    if events.len() > 0 {
        lemma_cited_finite(events.drop_last());
        vstd::seq_lib::seq_to_set_is_finite(events.last().pdu.auth_events);
    }
}

/// An event that is found has the identifier and is one of the events of its room.
pub proof fn lemma_found(rooms: Map<Seq<char>, RoomView>, room: Seq<char>, id: Seq<char>)
    requires
        find_pdu(rooms, room, id) is Some,
    ensures
        find_pdu(rooms, room, id)->0.id() == id,
        events_of(rooms, room).contains(find_pdu(rooms, room, id)->0),
        ids_of(events_of(rooms, room)).contains(id),
        forall|b: Seq<char>| #[trigger]
            find_pdu(rooms, room, id)->0.pdu.auth_events.contains(b) ==> cited_by(
                events_of(rooms, room),
            ).contains(b),
{
    lemma_found_in(events_of(rooms, room), id);
    let e = find_pdu(rooms, room, id)->0;
    lemma_contained(events_of(rooms, room), e);
}

proof fn lemma_found_in(events: Seq<StoredView>, id: Seq<char>)
    requires
        find_in(events, id) is Some,
    ensures
        find_in(events, id)->0.id() == id,
        events.contains(find_in(events, id)->0),
    decreases events.len(),
{
    if events[0].id() != id {
        lemma_found_in(events.drop_first(), id);
        let e = find_in(events, id)->0;
        let i = choose|i: int|
            0 <= i < events.drop_first().len() && events.drop_first()[i] == e;
        assert(events[i + 1] == e);
    }
}

proof fn lemma_contained(events: Seq<StoredView>, e: StoredView)
    requires
        events.contains(e),
    ensures
        ids_of(events).contains(e.id()),
        forall|b: Seq<char>| #[trigger]
            e.pdu.auth_events.contains(b) ==> cited_by(events).contains(b),
    decreases events.len(),
{
    let i = choose|i: int| 0 <= i < events.len() && events[i] == e;
    if i < events.len() - 1 {
        assert(events.drop_last()[i] == e);
        lemma_contained(events.drop_last(), e);
    }
}

/// Whether, of some events, each that is not waiting to be looked at is there and cites only events
/// that were seen.
spec fn explored(
    rooms: Map<Seq<char>, RoomView>,
    room: Seq<char>,
    known: Set<Seq<char>>,
    waiting: Seq<Seq<char>>,
    seen: Set<Seq<char>>,
) -> bool {
    forall|x: Seq<char>| #[trigger]
        known.contains(x) && !waiting.contains(x) ==> find_pdu(rooms, room, x) is Some && forall|
            b: Seq<char>,
        | #[trigger]
            cites(rooms, room, x, b) ==> seen.contains(b)
}

proof fn lemma_closed(
    rooms: Map<Seq<char>, RoomView>,
    room: Seq<char>,
    known: Set<Seq<char>>,
    seen: Set<Seq<char>>,
    a: Seq<char>,
    x: Seq<char>,
    steps: nat,
)
    requires
        explored(rooms, room, known, Seq::empty(), seen),
        seen.subset_of(known),
        known.contains(a),
        leads(rooms, room, a, x, steps),
    ensures
        known.contains(x),
        steps > 0 ==> seen.contains(x),
        find_pdu(rooms, room, x) is Some,
    decreases steps,
{
    if steps > 0 {
        let mid = choose|mid: Seq<char>| #[trigger]
            cites(rooms, room, a, mid) && leads(rooms, room, mid, x, (steps - 1) as nat);
        lemma_closed(rooms, room, known, seen, mid, x, (steps - 1) as nat);
    }
}

/// One more citation at the end of a chain.
proof fn lemma_leads_further(
    rooms: Map<Seq<char>, RoomView>,
    room: Seq<char>,
    a: Seq<char>,
    x: Seq<char>,
    b: Seq<char>,
    steps: nat,
)
    requires
        leads(rooms, room, a, x, steps),
        cites(rooms, room, x, b),
    ensures
        leads(rooms, room, a, b, steps + 1),
    decreases steps,
{
    if steps == 0 {
        assert(leads(rooms, room, b, b, 0));
    } else {
        let mid = choose|mid: Seq<char>| #[trigger]
            cites(rooms, room, a, mid) && leads(rooms, room, mid, x, (steps - 1) as nat);
        lemma_leads_further(rooms, room, mid, x, b, (steps - 1) as nat);
        assert(cites(rooms, room, a, mid));
    }
}

/// Whether an event is one of some, or in the auth chain of one.
spec fn reached(
    rooms: Map<Seq<char>, RoomView>,
    room: Seq<char>,
    ids: Seq<Seq<char>>,
    x: Seq<char>,
) -> bool {
    exists|i: int, steps: nat|
        0 <= i < ids.len() && #[trigger] leads(rooms, room, ids[i], x, steps)
}

/// The events in the auth chains of some events; `None` where one of them is missing.
pub fn auth_chains<S: Storage>(db: &S, room_id: &str, event_ids: &Vec<String>) -> (r: Result<
    Option<KeySet<String>>,
    ErrorKind,
>)
    ensures
        match r {
            Ok(Some(chain)) => chains_complete(db@.rooms, room_id@, texts(event_ids@)) && chain@
                == auth_chain(db@.rooms, room_id@, texts(event_ids@)),
            Ok(None) => !chains_complete(db@.rooms, room_id@, texts(event_ids@)),
            Err(_) => db_failed(r) && !db.reliable(),
        },
{
    let ghost rooms = db@.rooms;
    let ghost room = room_id@;
    let ghost ids = texts(event_ids@);
    let ghost start = ids.to_set();
    let ghost universe = cited_by(events_of(rooms, room));
    proof {
        lemma_cited_finite(events_of(rooms, room));
    }
    let mut seen: KeySet<String> = KeySet::new();
    let mut waiting = copy_texts(event_ids);
    proof {
        assert(texts(waiting@) =~= ids);
        assert forall|x: Seq<char>| #[trigger] start.contains(x) implies reached(
            rooms,
            room,
            ids,
            x,
        ) by {
            let i = choose|i: int| 0 <= i < ids.len() && ids[i] == x;
            assert(leads(rooms, room, ids[i], x, 0));
        }
    }
    while waiting.len() > 0
        invariant
            rooms == db@.rooms,
            room == room_id@,
            ids == texts(event_ids@),
            start == ids.to_set(),
            universe == cited_by(events_of(rooms, room)),
            universe.finite(),
            seen@.subset_of(universe),
            forall|x: Seq<char>| #[trigger]
                seen@.contains(x) ==> auth_chain(rooms, room, ids).contains(x),
            forall|j: int|
                0 <= j < texts(waiting@).len() ==> start.union(seen@).contains(
                    #[trigger] texts(waiting@)[j],
                ),
            explored(rooms, room, start.union(seen@), texts(waiting@), seen@),
        decreases universe.len() - seen@.len(), waiting@.len(),
    {
        let ghost before_waiting = texts(waiting@);
        let ghost before_seen = seen@;
        proof {
            vstd::set_lib::lemma_len_subset(seen@, universe);
        }
        let id = waiting.pop().unwrap();
        let ghost rest = texts(waiting@);
        proof {
            assert(before_waiting[before_waiting.len() - 1] == id@);
            assert(rest =~= before_waiting.drop_last());
            assert(start.union(before_seen).contains(id@));
            assert(reached(rooms, room, ids, id@)) by {
                if start.contains(id@) {
                    let i = choose|i: int| 0 <= i < ids.len() && ids[i] == id@;
                    assert(leads(rooms, room, ids[i], id@, 0));
                } else {
                    let i = choose|i: int|
                        0 <= i < ids.len() && in_chain(rooms, room, #[trigger] ids[i], id@);
                    let steps = choose|steps: nat|
                        steps > 0 && #[trigger] leads(rooms, room, ids[i], id@, steps);
                    assert(leads(rooms, room, ids[i], id@, steps));
                }
            }
        }
        let pdu = match db.get_pdu(room_id, id.as_str()) {
            Ok(Some(pdu)) => pdu,
            Ok(None) => {
                proof {
                    let (i, steps) = choose|i: int, steps: nat|
                        0 <= i < ids.len() && #[trigger] leads(rooms, room, ids[i], id@, steps);
                    assert(!chain_complete(rooms, room, ids[i]));
                }
                return Ok(None);
            },
            Err(e) => return Err(e),
        };
        proof {
            lemma_found(rooms, room, id@);
        }
        let cited = pdu.auth_events();
        let ghost all_cited = texts(cited@);
        let mut k: usize = 0;
        while k < cited.len()
            invariant
                k <= cited@.len(),
                all_cited == texts(cited@),
                rooms == db@.rooms,
                room == room_id@,
                ids == texts(event_ids@),
                start == ids.to_set(),
                universe == cited_by(events_of(rooms, room)),
                universe.finite(),
                find_pdu(rooms, room, id@) is Some,
                find_pdu(rooms, room, id@)->0.pdu.auth_events == all_cited,
                forall|b: Seq<char>| #[trigger] all_cited.contains(b) ==> universe.contains(b),
                reached(rooms, room, ids, id@),
                seen@.subset_of(universe),
                before_seen.subset_of(seen@),
                before_waiting.len() > 0,
                before_waiting[before_waiting.len() - 1] == id@,
                rest == before_waiting.drop_last(),
                explored(rooms, room, start.union(before_seen), before_waiting, before_seen),
                forall|j: int|
                    0 <= j < before_waiting.len() ==> start.union(before_seen).contains(
                        #[trigger] before_waiting[j],
                    ),
                forall|x: Seq<char>| #[trigger]
                    seen@.contains(x) ==> auth_chain(rooms, room, ids).contains(x),
                forall|x: Seq<char>| #[trigger]
                    seen@.contains(x) && !before_seen.contains(x) ==> texts(waiting@).contains(x),
                forall|x: Seq<char>| #[trigger]
                    rest.contains(x) ==> texts(waiting@).contains(x),
                forall|j: int|
                    0 <= j < texts(waiting@).len() ==> start.union(seen@).contains(
                        #[trigger] texts(waiting@)[j],
                    ),
                forall|j: int| 0 <= j < k ==> seen@.contains(#[trigger] all_cited[j]),
                seen@.len() >= before_seen.len(),
                seen@.len() == before_seen.len() ==> waiting@.len() == before_waiting.len() - 1,
            decreases cited@.len() - k,
        {
            let ghost seen_now = seen@;
            let ghost waiting_now = texts(waiting@);
            let ghost b = all_cited[k as int];
            proof {
                assert(b == cited@[k as int]@);
                assert(all_cited.contains(b));
                assert(cites(rooms, room, id@, b));
                let (i, steps) = choose|i: int, steps: nat|
                    0 <= i < ids.len() && #[trigger] leads(rooms, room, ids[i], id@, steps);
                lemma_leads_further(rooms, room, ids[i], id@, b, steps);
                assert(in_chain(rooms, room, ids[i], b));
                assert(auth_chain(rooms, room, ids).contains(b));
            }
            if !seen.contains(&cited[k]) {
                waiting.push(cited[k].clone());
                proof {
                    assert(texts(waiting@) =~= waiting_now.push(b));
                    assert(waiting_now.push(b)[waiting_now.len() as int] == b);
                    assert forall|x: Seq<char>| waiting_now.contains(x) implies texts(
                        waiting@,
                    ).contains(x) by {
                        let j = choose|j: int| 0 <= j < waiting_now.len() && waiting_now[j] == x;
                        assert(texts(waiting@)[j] == x);
                    }
                    assert(texts(waiting@).contains(b));
                }
            }
            let _new = seen.insert(cited[k].clone());
            k += 1;
        }
        proof {
            assert forall|x: Seq<char>| #[trigger]
                start.union(seen@).contains(x) && !texts(waiting@).contains(x) implies find_pdu(
                rooms,
                room,
                x,
            ) is Some && forall|b: Seq<char>| #[trigger]
                cites(rooms, room, x, b) ==> seen@.contains(b) by {
                if x == id@ {
                    assert forall|b: Seq<char>| #[trigger]
                        cites(rooms, room, x, b) implies seen@.contains(b) by {
                        let j = choose|j: int| 0 <= j < all_cited.len() && all_cited[j] == b;
                        assert(seen@.contains(all_cited[j]));
                    }
                } else {
                    assert(start.union(before_seen).contains(x));
                    assert(!before_waiting.contains(x)) by {
                        if before_waiting.contains(x) {
                            let j = choose|j: int|
                                0 <= j < before_waiting.len() && before_waiting[j] == x;
                            assert(rest[j] == x);
                            assert(rest.contains(x));
                        }
                    }
                }
            }
            assert(explored(rooms, room, start.union(seen@), texts(waiting@), seen@));
            vstd::set_lib::lemma_len_subset(seen@, universe);
        }
    }
    proof {
        let known = start.union(seen@);
        assert(texts(waiting@) =~= Seq::<Seq<char>>::empty());
        assert forall|i: int| 0 <= i < ids.len() implies chain_complete(
            rooms,
            room,
            #[trigger] ids[i],
        ) by {
            assert(start.contains(ids[i]));
            assert forall|x: Seq<char>, steps: nat| #[trigger]
                leads(rooms, room, ids[i], x, steps) implies find_pdu(rooms, room, x) is Some by {
                lemma_closed(rooms, room, known, seen@, ids[i], x, steps);
            }
        }
        assert forall|x: Seq<char>| seen@.contains(x) == auth_chain(
            rooms,
            room,
            ids,
        ).contains(x) by {
            if auth_chain(rooms, room, ids).contains(x) {
                let i = choose|i: int|
                    0 <= i < ids.len() && in_chain(rooms, room, #[trigger] ids[i], x);
                let steps = choose|steps: nat|
                    steps > 0 && #[trigger] leads(rooms, room, ids[i], x, steps);
                assert(start.contains(ids[i]));
                lemma_closed(rooms, room, known, seen@, ids[i], x, steps);
            }
        }
        assert(seen@ =~= auth_chain(rooms, room, ids));
    }
    Ok(Some(seen))
}

/// The events that are in the auth chains of some of the events and not of all of them; `None`
/// where one of the chains is not complete.
pub fn find_auth_difference<S: Storage>(db: &S, room_id: &str, event_ids: &Vec<String>) -> (r:
    Result<Option<KeySet<String>>, ErrorKind>)
    ensures
        match r {
            Ok(Some(difference)) => chains_complete(db@.rooms, room_id@, texts(event_ids@))
                && difference@ == auth_difference(db@.rooms, room_id@, texts(event_ids@)),
            Ok(None) => !chains_complete(db@.rooms, room_id@, texts(event_ids@)),
            Err(_) => db_failed(r) && !db.reliable(),
        },
{
    let ghost rooms = db@.rooms;
    let ghost room = room_id@;
    let ghost ids = texts(event_ids@);
    let mut chains: Vec<KeySet<String>> = Vec::new();
    let mut i: usize = 0;
    while i < event_ids.len()
        invariant
            i <= event_ids@.len(),
            rooms == db@.rooms,
            room == room_id@,
            ids == texts(event_ids@),
            chains@.len() == i,
            forall|j: int|
                0 <= j < i ==> chain_complete(rooms, room, #[trigger] ids[j]) && forall|
                    x: Seq<char>,
                | #[trigger]
                    chains@[j]@.contains(x) == in_chain(rooms, room, ids[j], x),
        decreases event_ids@.len() - i,
    {
        let mut one: Vec<String> = Vec::new();
        one.push(event_ids[i].clone());
        assert(texts(one@) =~= seq![ids[i as int]]);
        match auth_chains(db, room_id, &one) {
            Ok(Some(chain)) => {
                proof {
                    assert(texts(one@)[0] == ids[i as int]);
                    assert(chain_complete(rooms, room, texts(one@)[0]));
                    assert forall|x: Seq<char>| #[trigger] chain@.contains(x) == in_chain(
                        rooms,
                        room,
                        ids[i as int],
                        x,
                    ) by {
                        assert(auth_chain(rooms, room, texts(one@)).contains(x) == in_chain(
                            rooms,
                            room,
                            texts(one@)[0],
                            x,
                        ));
                    }
                }
                chains.push(chain);
            },
            Ok(None) => {
                proof {
                    assert(!chain_complete(rooms, room, ids[i as int])) by {
                        assert forall|j: int| 0 <= j < texts(one@).len() implies #[trigger] texts(
                            one@,
                        )[j] == ids[i as int] by {}
                    }
                }
                return Ok(None);
            },
            Err(e) => return Err(e),
        }
        i += 1;
    }
    let mut difference: KeySet<String> = KeySet::new();
    let mut i: usize = 0;
    while i < chains.len()
        invariant
            i <= chains@.len() == ids.len(),
            forall|j: int|
                0 <= j < chains@.len() ==> chain_complete(rooms, room, #[trigger] ids[j])
                    && forall|x: Seq<char>| #[trigger]
                    chains@[j]@.contains(x) == in_chain(rooms, room, ids[j], x),
            forall|x: Seq<char>| #[trigger]
                difference@.contains(x) <==> exists|j: int|
                    0 <= j < i && (#[trigger] chains@[j])@.contains(x) && not_everywhere(
                        chains@,
                        x,
                    ),
        decreases chains@.len() - i,
    {
        let ghost before = difference@;
        let n: usize = chains[i].len();
        let ghost listing = chains@[i as int].listing();
        let mut k: usize = 0;
        while k < n
            invariant
                i < chains@.len(),
                k <= n == listing.len(),
                listing == chains@[i as int].listing(),
                forall|x: Seq<char>| #[trigger]
                    difference@.contains(x) <==> before.contains(x) || (exists|m: int|
                        0 <= m < k && #[trigger] listing[m] == x && not_everywhere(chains@, x)),
            decreases n - k,
        {
            let ghost now = difference@;
            let item = chains[i].item(k);
            let lacking = is_lacking(&chains, item);
            if lacking {
                let _new = difference.insert(item.clone());
            }
            proof {
                assert forall|x: Seq<char>| #[trigger]
                    difference@.contains(x) <==> before.contains(x) || (exists|m: int|
                        0 <= m < k + 1 && #[trigger] listing[m] == x && not_everywhere(
                            chains@,
                            x,
                        )) by {
                    assert(difference@.contains(x) <==> now.contains(x) || (x == listing[k as int]
                        && lacking));
                }
            }
            k += 1;
        }
        proof {
            assert forall|x: Seq<char>| #[trigger]
                difference@.contains(x) <==> exists|j: int|
                    0 <= j < i + 1 && (#[trigger] chains@[j])@.contains(x) && not_everywhere(
                        chains@,
                        x,
                    ) by {
                if exists|m: int|
                    0 <= m < n && #[trigger] listing[m] == x && not_everywhere(chains@, x) {
                    assert(listing.contains(x));
                    assert(chains@[i as int]@.contains(x));
                }
                if chains@[i as int]@.contains(x) {
                    assert(listing.contains(x));
                    let m = choose|m: int| 0 <= m < listing.len() && listing[m] == x;
                    assert(listing[m] == x);
                }
            }
        }
        i += 1;
    }
    proof {
        assert forall|x: Seq<char>| difference@.contains(x) == auth_difference(
            rooms,
            room,
            ids,
        ).contains(x) by {
            if difference@.contains(x) {
                let j = choose|j: int|
                    0 <= j < chains@.len() && (#[trigger] chains@[j])@.contains(x)
                        && not_everywhere(chains@, x);
                assert(in_chain(rooms, room, ids[j], x));
                let m = choose|m: int|
                    0 <= m < chains@.len() && !(#[trigger] chains@[m])@.contains(x);
                assert(!in_chain(rooms, room, ids[m], x));
            }
            if auth_difference(rooms, room, ids).contains(x) {
                let j = choose|j: int|
                    0 <= j < ids.len() && in_chain(rooms, room, #[trigger] ids[j], x);
                let m = choose|m: int|
                    0 <= m < ids.len() && !in_chain(rooms, room, #[trigger] ids[m], x);
                assert(chains@[j]@.contains(x));
                assert(!chains@[m]@.contains(x));
                assert(not_everywhere(chains@, x));
            }
        }
        assert(difference@ =~= auth_difference(rooms, room, ids));
    }
    Ok(Some(difference))
}

/// Whether one of the sets lacks an item.
spec fn not_everywhere(chains: Seq<KeySet<String>>, x: Seq<char>) -> bool {
    exists|m: int| 0 <= m < chains.len() && !(#[trigger] chains[m])@.contains(x)
}

fn is_lacking(chains: &Vec<KeySet<String>>, item: &String) -> (r: bool)
    ensures
        r == not_everywhere(chains@, item@),
{
    let mut m: usize = 0;
    while m < chains.len()
        invariant
            m <= chains@.len(),
            forall|j: int| 0 <= j < m ==> (#[trigger] chains@[j])@.contains(item@),
        decreases chains@.len() - m,
    {
        if !chains[m].contains(item) {
            assert(!chains@[m as int]@.contains(item@));
            return true;
        }
        m += 1;
    }
    false
}

} // verus!
