//! How events stand to the history of a room's power levels.
use crate::error::ErrorKind;
use crate::events::EventContent;
use crate::state::chain::{events_of, ids_of, lemma_found, lemma_ids_finite};
use crate::state::rules::{
    cited_levels, closest, closest_within, first_levels, first_position, is_first, mainline,
    mainline_within,
};
use crate::storage::{db_failed, find_pdu, RoomView, Storage};
use crate::text::{holds, same, text_opt, texts};
use vstd::prelude::*;

verus! {

/// Whether each event of a path but the last cites the next one as its power levels event.
pub open spec fn linked(
    rooms: Map<Seq<char>, RoomView>,
    room: Seq<char>,
    path: Seq<Seq<char>>,
) -> bool {
    forall|j: int|
        0 <= j < path.len() - 1 ==> cited_levels(rooms, room, #[trigger] path[j]) == Some(
            Some(path[j + 1]),
        )
}

/// The power levels event that an event cites.
pub fn find_cited_levels<S: Storage>(db: &S, room_id: &str, id: &str) -> (r: Result<
    Option<Option<String>>,
    ErrorKind,
>)
    ensures
        match r {
            Ok(None) => cited_levels(db@.rooms, room_id@, id@) is None,
            Ok(Some(found)) => cited_levels(db@.rooms, room_id@, id@) == Some(text_opt(found)),
            Err(_) => db_failed(r) && !db.reliable(),
        },
{
    let event = match db.get_pdu(room_id, id) {
        Ok(Some(event)) => event,
        Ok(None) => return Ok(None),
        Err(e) => return Err(e),
    };
    let ids = event.auth_events();
    let ghost all = texts(ids@);
    let mut i: usize = 0;
    assert(all.skip(0) =~= all);
    while i < ids.len()
        invariant
            i <= ids@.len(),
            all == texts(ids@),
            cited_levels(db@.rooms, room_id@, id@) == first_levels(
                db@.rooms,
                room_id@,
                all.skip(i as int),
            ),
        decreases ids@.len() - i,
    {
        proof {
            assert(all.skip(i as int)[0] == ids@[i as int]@);
            assert(all.skip(i as int).drop_first() =~= all.skip(i + 1));
        }
        match db.get_pdu(room_id, ids[i].as_str()) {
            Ok(Some(auth_event)) => {
                match auth_event.event_content() {
                    EventContent::PowerLevels(_) => return Ok(Some(Some(ids[i].clone()))),
                    _ => {},
                }
            },
            Ok(None) => return Ok(None),
            Err(e) => return Err(e),
        }
        i += 1;
    }
    assert(all.skip(i as int).len() == 0);
    Ok(Some(None))
}

/// The power levels event that an event cites is there.
proof fn lemma_cited_found(rooms: Map<Seq<char>, RoomView>, room: Seq<char>, id: Seq<char>)
    requires
        cited_levels(rooms, room, id) is Some,
        cited_levels(rooms, room, id)->0 is Some,
    ensures
        find_pdu(rooms, room, cited_levels(rooms, room, id)->0->0) is Some,
{
    lemma_first_found(rooms, room, find_pdu(rooms, room, id)->0.pdu.auth_events);
}

proof fn lemma_first_found(
    rooms: Map<Seq<char>, RoomView>,
    room: Seq<char>,
    ids: Seq<Seq<char>>,
)
    requires
        first_levels(rooms, room, ids) is Some,
        first_levels(rooms, room, ids)->0 is Some,
    ensures
        find_pdu(rooms, room, first_levels(rooms, room, ids)->0->0) is Some,
    decreases ids.len(),
{
    if !(find_pdu(rooms, room, ids[0])->0.pdu.content is PowerLevels) {
        lemma_first_found(rooms, room, ids.drop_first());
    }
}

/// Events that are there are no more than there are events.
proof fn lemma_path_bounded(
    rooms: Map<Seq<char>, RoomView>,
    room: Seq<char>,
    path: Seq<Seq<char>>,
)
    requires
        path.no_duplicates(),
        forall|j: int| 0 <= j < path.len() ==> find_pdu(rooms, room, #[trigger] path[j]) is Some,
    ensures
        path.len() <= ids_of(events_of(rooms, room)).len(),
{
    let all = ids_of(events_of(rooms, room));
    lemma_ids_finite(events_of(rooms, room));
    path.unique_seq_to_set();
    assert(path.to_set().subset_of(all)) by {
        assert forall|x: Seq<char>| path.to_set().contains(x) implies all.contains(x) by {
            let j = choose|j: int| 0 <= j < path.len() && path[j] == x;
            lemma_found(rooms, room, path[j]);
        }
    }
    vstd::set_lib::lemma_len_subset(path.to_set(), all);
}

/// The same number of steps gives the same mainline.
pub proof fn lemma_mainline(
    rooms: Map<Seq<char>, RoomView>,
    room: Seq<char>,
    id: Seq<char>,
    steps: nat,
)
    requires
        mainline_within(rooms, room, id, steps) is Some,
    ensures
        mainline(rooms, room, id) == mainline_within(rooms, room, id, steps),
{
    let other = choose|other: nat| #[trigger] mainline_within(rooms, room, id, other) is Some;
    assert(mainline_within(rooms, room, id, other) is Some);
    if steps <= other {
        lemma_mainline_more(rooms, room, id, steps, other);
    } else {
        lemma_mainline_more(rooms, room, id, other, steps);
    }
}

proof fn lemma_mainline_more(
    rooms: Map<Seq<char>, RoomView>,
    room: Seq<char>,
    id: Seq<char>,
    steps: nat,
    more: nat,
)
    requires
        mainline_within(rooms, room, id, steps) is Some,
        steps <= more,
    ensures
        mainline_within(rooms, room, id, more) == mainline_within(rooms, room, id, steps),
    decreases steps,
{
    match cited_levels(rooms, room, id) {
        Some(Some(parent)) => {
            lemma_mainline_more(rooms, room, parent, (steps - 1) as nat, (more - 1) as nat);
        },
        _ => {},
    }
}

/// A mainline from the start of a path runs along the path.
proof fn lemma_mainline_along(
    rooms: Map<Seq<char>, RoomView>,
    room: Seq<char>,
    path: Seq<Seq<char>>,
    j: int,
    steps: nat,
)
    requires
        linked(rooms, room, path),
        0 <= j < path.len(),
        mainline_within(rooms, room, path[0], steps) is Some,
    ensures
        steps > j,
        mainline_within(rooms, room, path[j], (steps - j) as nat) is Some,
    decreases j,
{
    if j > 0 {
        lemma_mainline_along(rooms, room, path, j - 1, steps);
        assert(cited_levels(rooms, room, path[j - 1]) == Some(Some(path[j])));
    }
}

/// There is no mainline from an event on a circle.
proof fn lemma_mainline_circle(
    rooms: Map<Seq<char>, RoomView>,
    room: Seq<char>,
    path: Seq<Seq<char>>,
    start: int,
    j: int,
    steps: nat,
)
    requires
        linked(rooms, room, path),
        0 <= start <= j < path.len(),
        cited_levels(rooms, room, path[path.len() - 1]) == Some(Some(path[start])),
    ensures
        mainline_within(rooms, room, path[j], steps) is None,
    decreases steps,
{
    if steps > 0 {
        if j < path.len() - 1 {
            assert(cited_levels(rooms, room, path[j]) == Some(Some(path[j + 1])));
            lemma_mainline_circle(rooms, room, path, start, j + 1, (steps - 1) as nat);
        } else {
            lemma_mainline_circle(rooms, room, path, start, start, (steps - 1) as nat);
        }
    }
}

/// A path that ends is a mainline.
proof fn lemma_mainline_ends(
    rooms: Map<Seq<char>, RoomView>,
    room: Seq<char>,
    path: Seq<Seq<char>>,
    j: int,
)
    requires
        linked(rooms, room, path),
        0 <= j < path.len(),
        cited_levels(rooms, room, path[path.len() - 1]) == Some(None::<Seq<char>>),
    ensures
        mainline_within(rooms, room, path[j], (path.len() - j) as nat) == Some(path.skip(j)),
    decreases path.len() - j,
{
    if j == path.len() - 1 {
        assert(path.skip(j) =~= seq![path[j]]);
    } else {
        lemma_mainline_ends(rooms, room, path, j + 1);
        assert(cited_levels(rooms, room, path[j]) == Some(Some(path[j + 1])));
        assert(path.skip(j) =~= seq![path[j]] + path.skip(j + 1));
    }
}

/// A power levels event, the one that it cites, and so on; `None` where an event is missing or where
/// there is no end to it.
pub fn find_mainline<S: Storage>(db: &S, room_id: &str, start: &str) -> (r: Result<
    Option<Vec<String>>,
    ErrorKind,
>)
    ensures
        match r {
            Ok(Some(line)) => mainline(db@.rooms, room_id@, start@) == Some(texts(line@)),
            Ok(None) => mainline(db@.rooms, room_id@, start@) is None,
            Err(_) => db_failed(r) && !db.reliable(),
        },
{
    let ghost rooms = db@.rooms;
    let ghost room = room_id@;
    let mut line: Vec<String> = Vec::new();
    let mut current: String = start.to_owned();
    line.push(start.to_owned());
    assert(texts(line@) =~= seq![start@]);
    let ghost bound = ids_of(events_of(rooms, room)).len();
    loop
        invariant
            rooms == db@.rooms,
            room == room_id@,
            bound == ids_of(events_of(rooms, room)).len(),
            line@.len() > 0,
            texts(line@)[0] == start@,
            texts(line@).last() == current@,
            linked(rooms, room, texts(line@)),
            texts(line@).no_duplicates(),
            forall|j: int|
                0 <= j < line@.len() - 1 ==> find_pdu(rooms, room, #[trigger] texts(line@)[j])
                    is Some,
        decreases bound + 1 - line@.len(),
    {
        let ghost path = texts(line@);
        match find_cited_levels(db, room_id, current.as_str()) {
            Ok(Some(Some(parent))) => {
                proof {
                    lemma_cited_found(rooms, room, current@);
                    lemma_path_bounded(rooms, room, path);
                }
                if holds(&line, parent.as_str()) {
                    proof {
                        let at = choose|at: int| 0 <= at < path.len() && path[at] == parent@;
                        assert forall|steps: nat| #[trigger]
                            mainline_within(rooms, room, start@, steps) is None by {
                            if mainline_within(rooms, room, start@, steps) is Some {
                                lemma_mainline_along(rooms, room, path, at, steps);
                                lemma_mainline_circle(
                                    rooms,
                                    room,
                                    path,
                                    at,
                                    at,
                                    (steps - at) as nat,
                                );
                            }
                        }
                    }
                    return Ok(None);
                }
                line.push(parent.clone());
                proof {
                    assert(texts(line@) =~= path.push(parent@));
                    assert forall|j: int| 0 <= j < line@.len() - 1 implies cited_levels(
                        rooms,
                        room,
                        #[trigger] texts(line@)[j],
                    ) == Some(Some(texts(line@)[j + 1])) by {
                        if j < path.len() - 1 {
                            assert(cited_levels(rooms, room, path[j]) == Some(Some(path[j + 1])));
                        }
                    }
                }
                current = parent;
            },
            Ok(Some(None)) => {
                proof {
                    lemma_mainline_ends(rooms, room, path, 0);
                    assert(path.skip(0) =~= path);
                    lemma_mainline(rooms, room, start@, path.len());
                }
                return Ok(Some(line));
            },
            Ok(None) => {
                proof {
                    assert forall|steps: nat| #[trigger]
                        mainline_within(rooms, room, start@, steps) is None by {
                        if mainline_within(rooms, room, start@, steps) is Some {
                            lemma_mainline_along(rooms, room, path, path.len() - 1, steps);
                        }
                    }
                }
                return Ok(None);
            },
            Err(e) => return Err(e),
        }
    }
}

/// The same number of steps gives the same distance.
pub proof fn lemma_closest(
    rooms: Map<Seq<char>, RoomView>,
    room: Seq<char>,
    line: Seq<Seq<char>>,
    id: Seq<char>,
    steps: nat,
)
    requires
        closest_within(rooms, room, line, id, steps) is Some,
    ensures
        closest(rooms, room, line, id) == closest_within(rooms, room, line, id, steps),
{
    let other = choose|other: nat| #[trigger]
        closest_within(rooms, room, line, id, other) is Some;
    assert(closest_within(rooms, room, line, id, other) is Some);
    if steps <= other {
        lemma_closest_more(rooms, room, line, id, steps, other);
    } else {
        lemma_closest_more(rooms, room, line, id, other, steps);
    }
}

proof fn lemma_closest_more(
    rooms: Map<Seq<char>, RoomView>,
    room: Seq<char>,
    line: Seq<Seq<char>>,
    id: Seq<char>,
    steps: nat,
    more: nat,
)
    requires
        closest_within(rooms, room, line, id, steps) is Some,
        steps <= more,
    ensures
        closest_within(rooms, room, line, id, more) == closest_within(rooms, room, line, id, steps),
    decreases steps,
{
    if !line.contains(id) {
        match cited_levels(rooms, room, id) {
            Some(Some(parent)) => {
                lemma_closest_more(
                    rooms,
                    room,
                    line,
                    parent,
                    (steps - 1) as nat,
                    (more - 1) as nat,
                );
            },
            _ => {},
        }
    }
}

/// Whether no event of a path but the last belongs to the mainline.
spec fn outside(line: Seq<Seq<char>>, path: Seq<Seq<char>>) -> bool {
    forall|j: int| 0 <= j < path.len() - 1 ==> !line.contains(#[trigger] path[j])
}

/// The distance from the start of a path runs along the path.
proof fn lemma_closest_along(
    rooms: Map<Seq<char>, RoomView>,
    room: Seq<char>,
    line: Seq<Seq<char>>,
    path: Seq<Seq<char>>,
    j: int,
    steps: nat,
)
    requires
        linked(rooms, room, path),
        outside(line, path),
        0 <= j < path.len(),
        closest_within(rooms, room, line, path[0], steps) is Some,
    ensures
        steps >= j,
        closest_within(rooms, room, line, path[j], (steps - j) as nat) == closest_within(
            rooms,
            room,
            line,
            path[0],
            steps,
        ),
    decreases j,
{
    if j > 0 {
        lemma_closest_along(rooms, room, line, path, j - 1, steps);
        assert(cited_levels(rooms, room, path[j - 1]) == Some(Some(path[j])));
        assert(!line.contains(path[j - 1]));
    }
}

/// The distance from the end of a path is the one from its start.
proof fn lemma_closest_back(
    rooms: Map<Seq<char>, RoomView>,
    room: Seq<char>,
    line: Seq<Seq<char>>,
    path: Seq<Seq<char>>,
    j: int,
    steps: nat,
)
    requires
        linked(rooms, room, path),
        outside(line, path),
        0 <= j < path.len(),
        closest_within(rooms, room, line, path[path.len() - 1], steps) is Some,
    ensures
        closest_within(
            rooms,
            room,
            line,
            path[j],
            (steps + path.len() - 1 - j) as nat,
        ) == closest_within(rooms, room, line, path[path.len() - 1], steps),
    decreases path.len() - j,
{
    if j < path.len() - 1 {
        lemma_closest_back(rooms, room, line, path, j + 1, steps);
        assert(cited_levels(rooms, room, path[j]) == Some(Some(path[j + 1])));
        assert(!line.contains(path[j]));
    }
}

/// There is no distance from an event on a circle that does not touch the mainline.
proof fn lemma_closest_circle(
    rooms: Map<Seq<char>, RoomView>,
    room: Seq<char>,
    line: Seq<Seq<char>>,
    path: Seq<Seq<char>>,
    start: int,
    j: int,
    steps: nat,
)
    requires
        linked(rooms, room, path),
        outside(line, path),
        !line.contains(path[path.len() - 1]),
        0 <= start <= j < path.len(),
        cited_levels(rooms, room, path[path.len() - 1]) == Some(Some(path[start])),
    ensures
        closest_within(rooms, room, line, path[j], steps) is None,
    decreases steps,
{
    assert(!line.contains(path[j]));
    if steps > 0 {
        if j < path.len() - 1 {
            assert(cited_levels(rooms, room, path[j]) == Some(Some(path[j + 1])));
            lemma_closest_circle(rooms, room, line, path, start, j + 1, (steps - 1) as nat);
        } else {
            lemma_closest_circle(rooms, room, line, path, start, start, (steps - 1) as nat);
        }
    }
}

/// The first position of an item.
fn position(line: &Vec<String>, x: &str) -> (r: Option<usize>)
    ensures
        match r {
            Some(i) => texts(line@).contains(x@) && i == first_position(texts(line@), x@) && i
                < line@.len(),
            None => !texts(line@).contains(x@),
        },
{
    let mut i: usize = 0;
    while i < line.len()
        invariant
            i <= line@.len(),
            forall|j: int| 0 <= j < i ==> #[trigger] texts(line@)[j] != x@,
        decreases line@.len() - i,
    {
        assert(texts(line@)[i as int] == line@[i as int]@);
        if same(line[i].as_str(), x) {
            proof {
                assert(is_first(texts(line@), x@, i as int));
                let other = first_position(texts(line@), x@);
                assert(is_first(texts(line@), x@, other));
                assert(other == i);
            }
            return Some(i);
        }
        i += 1;
    }
    None
}

/// What an optional position says.
pub open spec fn position_opt(p: Option<usize>) -> Option<int> {
    match p {
        Some(i) => Some(i as int),
        None => None,
    }
}

/// The position in the mainline of the first event that belongs to it, out of an event, the power
/// levels event that it cites, and so on; `None` where an event is missing or where there is no end
/// to it.
pub fn find_closest<S: Storage>(db: &S, room_id: &str, line: &Vec<String>, start: &str) -> (r:
    Result<Option<Option<usize>>, ErrorKind>)
    ensures
        match r {
            Ok(Some(found)) => closest(db@.rooms, room_id@, texts(line@), start@) == Some(
                position_opt(found),
            ) && (found is Some ==> found->0 < line@.len()),
            Ok(None) => closest(db@.rooms, room_id@, texts(line@), start@) is None,
            Err(_) => db_failed(r) && !db.reliable(),
        },
{
    let ghost rooms = db@.rooms;
    let ghost room = room_id@;
    let ghost ml = texts(line@);
    let mut path: Vec<String> = Vec::new();
    let mut current: String = start.to_owned();
    path.push(start.to_owned());
    assert(texts(path@) =~= seq![start@]);
    let ghost bound = ids_of(events_of(rooms, room)).len();
    loop
        invariant
            rooms == db@.rooms,
            room == room_id@,
            ml == texts(line@),
            bound == ids_of(events_of(rooms, room)).len(),
            path@.len() > 0,
            texts(path@)[0] == start@,
            texts(path@).last() == current@,
            linked(rooms, room, texts(path@)),
            outside(ml, texts(path@)),
            texts(path@).no_duplicates(),
            forall|j: int|
                0 <= j < path@.len() - 1 ==> find_pdu(rooms, room, #[trigger] texts(path@)[j])
                    is Some,
        decreases bound + 1 - path@.len(),
    {
        let ghost way = texts(path@);
        match position(line, current.as_str()) {
            Some(index) => {
                proof {
                    assert(closest_within(rooms, room, ml, current@, 0) == Some(
                        Some(index as int),
                    ));
                    lemma_closest_back(rooms, room, ml, way, 0, 0);
                    lemma_closest(rooms, room, ml, start@, (way.len() - 1) as nat);
                }
                return Ok(Some(Some(index)));
            },
            None => {},
        }
        match find_cited_levels(db, room_id, current.as_str()) {
            Ok(Some(Some(parent))) => {
                proof {
                    lemma_cited_found(rooms, room, current@);
                    lemma_path_bounded(rooms, room, way);
                }
                if holds(&path, parent.as_str()) {
                    proof {
                        let at = choose|at: int| 0 <= at < way.len() && way[at] == parent@;
                        assert forall|steps: nat| #[trigger]
                            closest_within(rooms, room, ml, start@, steps) is None by {
                            if closest_within(rooms, room, ml, start@, steps) is Some {
                                lemma_closest_along(rooms, room, ml, way, at, steps);
                                lemma_closest_circle(
                                    rooms,
                                    room,
                                    ml,
                                    way,
                                    at,
                                    at,
                                    (steps - at) as nat,
                                );
                            }
                        }
                    }
                    return Ok(None);
                }
                path.push(parent.clone());
                proof {
                    assert(texts(path@) =~= way.push(parent@));
                    assert forall|j: int| 0 <= j < path@.len() - 1 implies cited_levels(
                        rooms,
                        room,
                        #[trigger] texts(path@)[j],
                    ) == Some(Some(texts(path@)[j + 1])) by {
                        if j < way.len() - 1 {
                            assert(cited_levels(rooms, room, way[j]) == Some(Some(way[j + 1])));
                        }
                    }
                    assert forall|j: int| 0 <= j < path@.len() - 1 implies !ml.contains(
                        #[trigger] texts(path@)[j],
                    ) by {
                        assert(texts(path@)[j] == way[j]);
                    }
                }
                current = parent;
            },
            Ok(Some(None)) => {
                proof {
                    assert(closest_within(rooms, room, ml, current@, 1) == Some(None::<int>));
                    lemma_closest_back(rooms, room, ml, way, 0, 1);
                    lemma_closest(rooms, room, ml, start@, way.len());
                }
                return Ok(Some(None));
            },
            Ok(None) => {
                proof {
                    assert forall|steps: nat| #[trigger]
                        closest_within(rooms, room, ml, start@, steps) is None by {
                        if closest_within(rooms, room, ml, start@, steps) is Some {
                            lemma_closest_along(rooms, room, ml, way, way.len() - 1, steps);
                        }
                    }
                }
                return Ok(None);
            },
            Err(e) => return Err(e),
        }
    }
}

} // verus!
