//! The order of the events that decide on the powers of users.
use crate::dict::Duplicate;
use crate::error::ErrorKind;
use crate::events::pdu::StoredPdu;
use crate::state::chain::cites;
use crate::state::order::{key_ids, key_views, sort_keys, SortKey, SortKeyView};
use crate::state::rules::{
    lemma_round_smaller, levels_known, power_key, power_keys, power_order, uncited,
};
use crate::storage::{db_failed, find_pdu, RoomView, Storage};
use crate::text::{holds, texts};
use crate::util::storage::{sender_level, try_sender_power_level};
use vstd::prelude::*;

verus! {

/// The identifiers of stored events.
pub open spec fn stored_ids(pdus: Seq<StoredPdu>) -> Seq<Seq<char>> {
    Seq::new(pdus.len(), |i: int| pdus[i]@.id())
}

/// Whether stored events are events of a room, each once.
pub open spec fn taken_from(
    rooms: Map<Seq<char>, RoomView>,
    room: Seq<char>,
    pdus: Seq<StoredPdu>,
) -> bool {
    &&& stored_ids(pdus).no_duplicates()
    &&& forall|i: int|
        0 <= i < pdus.len() ==> find_pdu(rooms, room, (#[trigger] pdus[i])@.id()) == Some(pdus[i]@)
}

/// Whether one of some stored events cites an event.
spec fn cited_among(pdus: Seq<StoredPdu>, id: Seq<char>) -> bool {
    exists|i: int| 0 <= i < pdus.len() && (#[trigger] pdus[i])@.pdu.auth_events.contains(id)
}

fn is_cited(pdus: &Vec<StoredPdu>, id: &str) -> (r: bool)
    ensures
        r == cited_among(pdus@, id@),
{
    let mut i: usize = 0;
    while i < pdus.len()
        invariant
            i <= pdus@.len(),
            forall|j: int|
                0 <= j < i ==> !(#[trigger] pdus@[j])@.pdu.auth_events.contains(id@),
        decreases pdus@.len() - i,
    {
        if holds(pdus[i].auth_events(), id) {
            assert(pdus@[i as int]@.pdu.auth_events.contains(id@));
            return true;
        }
        i += 1;
    }
    false
}

proof fn lemma_uncited(
    rooms: Map<Seq<char>, RoomView>,
    room: Seq<char>,
    pdus: Seq<StoredPdu>,
    id: Seq<char>,
)
    requires
        taken_from(rooms, room, pdus),
        stored_ids(pdus).contains(id),
    ensures
        uncited(rooms, room, stored_ids(pdus).to_set()).contains(id) == !cited_among(pdus, id),
{
    let ids = stored_ids(pdus);
    if cited_among(pdus, id) {
        let i = choose|i: int|
            0 <= i < pdus.len() && (#[trigger] pdus[i])@.pdu.auth_events.contains(id);
        assert(ids[i] == pdus[i]@.id());
        assert(ids.to_set().contains(ids[i]));
        assert(cites(rooms, room, ids[i], id));
    } else {
        assert forall|y: Seq<char>| #[trigger] ids.to_set().contains(y) implies !cites(
            rooms,
            room,
            y,
            id,
        ) by {
            let i = choose|i: int| 0 <= i < ids.len() && ids[i] == y;
            assert(pdus[i]@.id() == y);
        }
    }
}

/// Splits events into those that none of them cites, by what they are ordered by, and the others;
/// `None` where the level of a sender is not known.
fn split_round<S: Storage>(db: &S, room_id: &str, pdus: &Vec<StoredPdu>) -> (r: Result<
    Option<(Vec<SortKey>, Vec<StoredPdu>)>,
    ErrorKind,
>)
    requires
        taken_from(db@.rooms, room_id@, pdus@),
    ensures
        match r {
            Ok(Some((round, others))) => {
                let ids = stored_ids(pdus@).to_set();
                &&& levels_known(db@.rooms, room_id@, uncited(db@.rooms, room_id@, ids))
                &&& key_views(round@).to_set() == power_keys(
                    db@.rooms,
                    room_id@,
                    uncited(db@.rooms, room_id@, ids),
                )
                &&& key_ids(key_views(round@)).no_duplicates()
                &&& key_ids(key_views(round@)).to_set() == uncited(db@.rooms, room_id@, ids)
                &&& taken_from(db@.rooms, room_id@, others@)
                &&& stored_ids(others@).to_set() == ids.difference(
                    uncited(db@.rooms, room_id@, ids),
                )
            },
            Ok(None) => !levels_known(
                db@.rooms,
                room_id@,
                uncited(db@.rooms, room_id@, stored_ids(pdus@).to_set()),
            ),
            Err(_) => db_failed(r) && !db.reliable(),
        },
{
    let ghost rooms = db@.rooms;
    let ghost room = room_id@;
    let ghost ids = stored_ids(pdus@);
    let ghost first = uncited(rooms, room, ids.to_set());
    let mut round: Vec<SortKey> = Vec::new();
    let mut others: Vec<StoredPdu> = Vec::new();
    let mut i: usize = 0;
    while i < pdus.len()
        invariant
            i <= pdus@.len(),
            rooms == db@.rooms,
            room == room_id@,
            ids == stored_ids(pdus@),
            first == uncited(rooms, room, ids.to_set()),
            taken_from(rooms, room, pdus@),
            taken_from(rooms, room, others@),
            key_ids(key_views(round@)).no_duplicates(),
            forall|j: int|
                0 <= j < i && first.contains(#[trigger] ids[j]) ==> sender_level(
                    rooms,
                    pdus@[j]@.pdu.room_id,
                    ids[j],
                ) is Some,
            forall|x: Seq<char>| #[trigger]
                stored_ids(others@).contains(x) <==> exists|j: int|
                    0 <= j < i && #[trigger] ids[j] == x && !first.contains(x),
            forall|x: Seq<char>| #[trigger]
                key_ids(key_views(round@)).contains(x) <==> exists|j: int|
                    0 <= j < i && #[trigger] ids[j] == x && first.contains(x),
            forall|m: int|
                0 <= m < round@.len() ==> (#[trigger] round@[m])@ == power_key(
                    rooms,
                    room,
                    round@[m]@.id,
                ),
        decreases pdus@.len() - i,
    {
        let pdu = &pdus[i];
        let id = pdu.event_id();
        let ghost x = ids[i as int];
        let ghost old_others = stored_ids(others@);
        let ghost old_round = key_ids(key_views(round@));
        proof {
            assert(x == id@);
            assert(ids.contains(x));
            lemma_uncited(rooms, room, pdus@, x);
            assert(find_pdu(rooms, room, pdus@[i as int]@.id()) == Some(pdus@[i as int]@));
            assert(!old_others.contains(x)) by {
                if old_others.contains(x) {
                    let j = choose|j: int|
                        0 <= j < i && #[trigger] ids[j] == x && !first.contains(x);
                    assert(ids[j] == ids[i as int]);
                }
            }
            assert(!old_round.contains(x)) by {
                if old_round.contains(x) {
                    let j = choose|j: int|
                        0 <= j < i && #[trigger] ids[j] == x && first.contains(x);
                    assert(ids[j] == ids[i as int]);
                }
            }
        }
        if is_cited(pdus, id) {
            let ghost before = others@;
            others.push(pdu.duplicate());
            proof {
                let now = stored_ids(others@);
                assert(now =~= old_others.push(x));
                lemma_push_contains(old_others, x);
                assert forall|m: int| 0 <= m < others@.len() implies find_pdu(
                    rooms,
                    room,
                    (#[trigger] others@[m])@.id(),
                ) == Some(others@[m]@) by {
                    if m < before.len() {
                        assert(others@[m] == before[m]);
                    }
                }
                assert forall|y: Seq<char>| #[trigger] now.contains(y) <==> exists|j: int|
                    0 <= j < i + 1 && #[trigger] ids[j] == y && !first.contains(y) by {
                    assert(now.contains(y) <==> old_others.contains(y) || y == x);
                }
                assert forall|y: Seq<char>| #[trigger] old_round.contains(y) <==> exists|j: int|
                    0 <= j < i + 1 && #[trigger] ids[j] == y && first.contains(y) by {
                    if exists|j: int|
                        0 <= j < i + 1 && #[trigger] ids[j] == y && first.contains(y) {
                        let j = choose|j: int|
                            0 <= j < i + 1 && #[trigger] ids[j] == y && first.contains(y);
                        assert(j < i);
                    }
                }
            }
        } else {
            let level = match try_sender_power_level(db, pdu.room_id(), id) {
                Ok(Some(level)) => level,
                Ok(None) => {
                    assert(first.contains(x));
                    return Ok(None);
                },
                Err(e) => return Err(e),
            };
            let ghost before = round@;
            round.push(
                SortKey { rank: level as usize, ts: pdu.origin_server_ts(), id: id.to_owned() },
            );
            proof {
                let now = key_ids(key_views(round@));
                assert(now =~= old_round.push(x));
                lemma_push_contains(old_round, x);
                assert forall|m: int| 0 <= m < round@.len() implies (#[trigger] round@[m])@
                    == power_key(rooms, room, round@[m]@.id) by {
                    if m < before.len() {
                        assert(round@[m] == before[m]);
                    }
                }
                assert forall|y: Seq<char>| #[trigger] now.contains(y) <==> exists|j: int|
                    0 <= j < i + 1 && #[trigger] ids[j] == y && first.contains(y) by {
                    assert(now.contains(y) <==> old_round.contains(y) || y == x);
                }
                assert forall|y: Seq<char>| #[trigger] old_others.contains(y) <==> exists|j: int|
                    0 <= j < i + 1 && #[trigger] ids[j] == y && !first.contains(y) by {
                    if exists|j: int|
                        0 <= j < i + 1 && #[trigger] ids[j] == y && !first.contains(y) {
                        let j = choose|j: int|
                            0 <= j < i + 1 && #[trigger] ids[j] == y && !first.contains(y);
                        assert(j < i);
                    }
                }
            }
        }
        i += 1;
    }
    proof {
        let all = ids.to_set();
        assert forall|x: Seq<char>| #[trigger] first.contains(x) implies ids.contains(x) by {
            assert(all.contains(x));
        }
        assert forall|x: Seq<char>| #[trigger] first.contains(x) implies sender_level(
            rooms,
            find_pdu(rooms, room, x)->0.pdu.room_id,
            x,
        ) is Some by {
            let j = choose|j: int| 0 <= j < ids.len() && ids[j] == x;
            assert(find_pdu(rooms, room, pdus@[j]@.id()) == Some(pdus@[j]@));
            assert(first.contains(ids[j]));
        }
        assert forall|x: Seq<char>| stored_ids(others@).to_set().contains(x) == all.difference(
            first,
        ).contains(x) by {
            if all.contains(x) && !first.contains(x) {
                let j = choose|j: int| 0 <= j < ids.len() && ids[j] == x;
                assert(ids[j] == x && !first.contains(x));
                assert(stored_ids(others@).contains(x));
            }
            if stored_ids(others@).contains(x) {
                let j = choose|j: int|
                    0 <= j < i && #[trigger] ids[j] == x && !first.contains(x);
                assert(ids.contains(ids[j]));
            }
        }
        assert(stored_ids(others@).to_set() =~= all.difference(first));
        let keys = key_views(round@);
        assert forall|x: Seq<char>| key_ids(keys).to_set().contains(x) == first.contains(x) by {
            if first.contains(x) {
                let j = choose|j: int| 0 <= j < ids.len() && ids[j] == x;
                assert(ids[j] == x && first.contains(x));
                assert(key_ids(keys).contains(x));
            }
        }
        assert(key_ids(keys).to_set() =~= first);
        assert forall|k: SortKeyView| keys.to_set().contains(k) == power_keys(
            rooms,
            room,
            first,
        ).contains(k) by {
            if keys.contains(k) {
                let m = choose|m: int| 0 <= m < keys.len() && keys[m] == k;
                assert(round@[m]@ == k);
                assert(key_ids(keys)[m] == k.id);
                assert(key_ids(keys).contains(k.id));
            }
            if power_keys(rooms, room, first).contains(k) {
                assert(key_ids(keys).to_set().contains(k.id));
                let m = choose|m: int| 0 <= m < key_ids(keys).len() && key_ids(keys)[m] == k.id;
                assert(keys[m] == round@[m]@);
                assert(keys[m] == k);
            }
        }
        assert(keys.to_set() =~= power_keys(rooms, room, first));
    }
    Ok(Some((round, others)))
}

proof fn lemma_push_contains(s: Seq<Seq<char>>, x: Seq<char>)
    ensures
        forall|y: Seq<char>| #[trigger] s.push(x).contains(y) <==> s.contains(y) || y == x,
        s.no_duplicates() && !s.contains(x) ==> s.push(x).no_duplicates(),
{
    let t = s.push(x);
    assert forall|y: Seq<char>| #[trigger] t.contains(y) <==> s.contains(y) || y == x by {
        assert(t[s.len() as int] == x);
        if s.contains(y) {
            let i = choose|i: int| 0 <= i < s.len() && s[i] == y;
            assert(t[i] == y);
        }
        if t.contains(y) && y != x {
            let i = choose|i: int| 0 <= i < t.len() && t[i] == y;
            assert(s[i] == y);
        }
    }
}

/// The events that decide on the powers of users in the order in which they are looked at; `None`
/// where there is no such order, or where the level of a sender is not known.
pub fn reverse_topological_power_ordering<S: Storage>(
    db: &S,
    room_id: &str,
    events: Vec<StoredPdu>,
) -> (r: Result<Option<Vec<String>>, ErrorKind>)
    requires
        taken_from(db@.rooms, room_id@, events@),
    ensures
        match r {
            Ok(Some(order)) => power_order(
                db@.rooms,
                room_id@,
                stored_ids(events@).to_set(),
            ) == Some(texts(order@)),
            Ok(None) => power_order(
                db@.rooms,
                room_id@,
                stored_ids(events@).to_set(),
            ) is None,
            Err(_) => db_failed(r) && !db.reliable(),
        },
{
    let ghost rooms = db@.rooms;
    let ghost room = room_id@;
    let ghost all = stored_ids(events@).to_set();
    let mut rest = events;
    let mut order: Vec<String> = Vec::new();
    proof {
        assert(texts(order@) =~= Seq::<Seq<char>>::empty());
        vstd::seq_lib::seq_to_set_is_finite(stored_ids(rest@));
        if power_order(rooms, room, all) is Some {
            assert(texts(order@) + power_order(rooms, room, all)->0 =~= power_order(
                rooms,
                room,
                all,
            )->0);
        }
    }
    while rest.len() > 0
        invariant
            rooms == db@.rooms,
            room == room_id@,
            all == stored_ids(events@).to_set(),
            taken_from(rooms, room, rest@),
            power_order(rooms, room, all) == (match power_order(
                rooms,
                room,
                stored_ids(rest@).to_set(),
            ) {
                Some(tail) => Some(texts(order@) + tail),
                None => None,
            }),
        decreases rest@.len(),
    {
        let ghost ids = stored_ids(rest@).to_set();
        let ghost first = uncited(rooms, room, ids);
        proof {
            vstd::seq_lib::seq_to_set_is_finite(stored_ids(rest@));
            stored_ids(rest@).unique_seq_to_set();
            lemma_round_smaller(rooms, room, ids);
        }
        match split_round(db, room_id, &rest) {
            Ok(Some((round, others))) => {
                proof {
                    key_ids(key_views(round@)).unique_seq_to_set();
                    stored_ids(others@).unique_seq_to_set();
                    assert(first.len() == round@.len());
                }
                if round.len() == 0 {
                    // the events that are left cite one another in a circle
                    return Ok(None);
                }
                proof {
                    assert forall|a: int, b: int| 0 <= a < b < round@.len() implies (
                    #[trigger] round@[a]).id@ != (#[trigger] round@[b]).id@ by {
                        assert(key_ids(key_views(round@))[a] != key_ids(key_views(round@))[b]);
                    }
                }
                let next = sort_keys(round);
                let ghost done = texts(order@);
                let ghost next_ids = key_ids(key_views(next@));
                let mut k: usize = 0;
                assert(next_ids.take(0) =~= Seq::<Seq<char>>::empty());
                assert(done + next_ids.take(0) =~= done);
                while k < next.len()
                    invariant
                        k <= next@.len(),
                        next_ids == key_ids(key_views(next@)),
                        texts(order@) == done + next_ids.take(k as int),
                    decreases next@.len() - k,
                {
                    let ghost before = texts(order@);
                    order.push(next[k].id.clone());
                    proof {
                        assert(texts(order@) =~= before.push(next_ids[k as int]));
                        assert(next_ids.take(k + 1) =~= next_ids.take(k as int).push(
                            next_ids[k as int],
                        ));
                        assert(texts(order@) =~= done + next_ids.take(k + 1));
                    }
                    k += 1;
                }
                proof {
                    assert(next_ids.take(k as int) =~= next_ids);
                    let tail = power_order(rooms, room, ids.difference(first));
                    if tail is Some {
                        assert(done + (next_ids + tail->0) =~= texts(order@) + tail->0);
                    }
                }
                rest = others;
            },
            Ok(None) => {
                proof {
                    if first.len() == 0 {
                        assert(first =~= Set::empty());
                    }
                }
                return Ok(None);
            },
            Err(e) => return Err(e),
        }
    }
    proof {
        assert(stored_ids(rest@).to_set() =~= Set::empty());
        assert(texts(order@) + Seq::<Seq<char>>::empty() =~= texts(order@));
    }
    Ok(Some(order))
}

} // verus!
