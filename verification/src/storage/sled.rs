//! How a store on disk names and orders what it keeps.
use crate::dict::{Dict, Duplicate, KeySet};
use crate::error::{ErrorKind, ErrorView};
use crate::events::ephemeral::{says_typing, Typing};
use crate::events::json_opt;
use crate::events::pdu::{StoredPdu, StoredView};
use crate::events::EventContent;
use crate::json::JsonValue;
use crate::outside::{show_uuid, uuid_text};
use crate::storage::{
    deadline, ids_at_depth, max_depth, new_room, list_typing, shows_ephemeral, still_typing, with_typing, RoomView,
};
use crate::text::{joined, same};
use crate::util::mxid::MatrixId;
use vstd::prelude::*;

verus! {

/// The key for a position in the order of the events of a room: a null byte, which sets such keys
/// apart from others, and the position with its highest byte first.
pub open spec fn ordering_bytes(position: u32) -> Seq<u8> {
    seq![
        0u8,
        (position / 0x100_0000) as u8,
        (position / 0x1_0000 % 0x100) as u8,
        (position / 0x100 % 0x100) as u8,
        (position % 0x100) as u8,
    ]
}

/// Whether one key comes before another: the first byte that differs decides.
pub open spec fn bytes_less(a: Seq<u8>, b: Seq<u8>) -> bool
    decreases a.len(),
{
    if b.len() == 0 {
        false
    } else if a.len() == 0 {
        true
    } else if a[0] != b[0] {
        a[0] < b[0]
    } else {
        bytes_less(a.drop_first(), b.drop_first())
    }
}

/// The position that a key stands for.
pub open spec fn position_of(key: Seq<u8>) -> Option<u32> {
    if key.len() == 5 && key[0] == 0 {
        Some((key[1] * 0x100_0000 + key[2] * 0x1_0000 + key[3] * 0x100 + key[4]) as u32)
    } else {
        None
    }
}

/// The key for a position is read back as the position.
pub proof fn law_position_read_back(position: u32)
    ensures
        position_of(ordering_bytes(position)) == Some(position),
{
}

proof fn lemma_first_byte(x: Seq<u8>, y: Seq<u8>)
    requires
        x.len() == y.len() > 0,
    ensures
        x[0] != y[0] ==> bytes_less(x, y) == (x[0] < y[0]),
        x[0] == y[0] ==> bytes_less(x, y) == bytes_less(x.skip(1), y.skip(1)),
{
    assert(x.skip(1) =~= x.drop_first());
    assert(y.skip(1) =~= y.drop_first());
}

proof fn lemma_bytes_from(x: Seq<u8>, y: Seq<u8>, i: int)
    requires
        x.len() == y.len(),
        0 <= i < x.len(),
    ensures
        x[i] != y[i] ==> bytes_less(x.skip(i), y.skip(i)) == (x[i] < y[i]),
        x[i] == y[i] ==> bytes_less(x.skip(i), y.skip(i)) == bytes_less(
            x.skip(i + 1),
            y.skip(i + 1),
        ),
{
    lemma_first_byte(x.skip(i), y.skip(i));
    assert(x.skip(i).skip(1) =~= x.skip(i + 1));
    assert(y.skip(i).skip(1) =~= y.skip(i + 1));
}

proof fn lemma_digits(position: u32)
    ensures
        ({
            let x = ordering_bytes(position);
            &&& x.len() == 5 && x[0] == 0
            &&& position == x[1] * 0x100_0000 + x[2] * 0x1_0000 + x[3] * 0x100 + x[4]
        }),
{
}

proof fn lemma_digit_order(x: Seq<u8>, y: Seq<u8>)
    requires
        x.len() == y.len() == 5,
        x[0] == y[0],
    ensures
        bytes_less(x, y) == (x[1] * 0x100_0000 + x[2] * 0x1_0000 + x[3] * 0x100 + x[4] < y[1]
            * 0x100_0000 + y[2] * 0x1_0000 + y[3] * 0x100 + y[4]),
{
    assert(x.skip(0) =~= x && y.skip(0) =~= y);
    lemma_bytes_from(x, y, 0);
    lemma_bytes_from(x, y, 1);
    lemma_bytes_from(x, y, 2);
    lemma_bytes_from(x, y, 3);
    lemma_bytes_from(x, y, 4);
    assert(!bytes_less(x.skip(5), y.skip(5)));
}

/// Keys are in the order of their positions.
pub proof fn law_keys_in_order(a: u32, b: u32)
    ensures
        bytes_less(ordering_bytes(a), ordering_bytes(b)) == (a < b),
{
    lemma_digits(a);
    lemma_digits(b);
    lemma_digit_order(ordering_bytes(a), ordering_bytes(b));
}

/// The key for a position in the order of the events of a room.
pub fn ordering_key(position: u32) -> (key: Vec<u8>)
    ensures
        key@ == ordering_bytes(position),
{
    let mut key: Vec<u8> = Vec::new();
    key.push(0);
    key.push((position / 0x100_0000) as u8);
    key.push((position / 0x1_0000 % 0x100) as u8);
    key.push((position / 0x100 % 0x100) as u8);
    key.push((position % 0x100) as u8);
    assert(key@ =~= ordering_bytes(position));
    key
}

/// The position that a key stands for; `None` where it stands for none.
pub fn read_ordering_key(key: &[u8]) -> (r: Option<u32>)
    ensures
        r == position_of(key@),
{
    if key.len() == 5 && key[0] == 0 {
        let high: u32 = key[1] as u32 * 0x100_0000 + key[2] as u32 * 0x1_0000;
        Some(high + key[3] as u32 * 0x100 + key[4] as u32)
    } else {
        None
    }
}

/// The bytes of an optional key.
pub open spec fn bytes_opt(key: Option<&[u8]>) -> Option<Seq<u8>> {
    match key {
        Some(bytes) => Some(bytes@),
        None => None,
    }
}

/// The position of the next event of a room; there is none where the last key stands for no position,
/// or for the greatest.
pub open spec fn next_position(last: Option<Seq<u8>>) -> Option<u32> {
    match last {
        None => Some(0),
        Some(key) => match position_of(key) {
            Some(position) => if position < u32::MAX {
                Some((position + 1) as u32)
            } else {
                None
            },
            None => None,
        },
    }
}

/// The key of the next event of a room comes after the last one.
pub proof fn law_next_key_follows(last: Seq<u8>)
    requires
        next_position(Some(last)) is Some,
    ensures
        bytes_less(last, ordering_bytes(next_position(Some(last))->0)),
{
    let position = position_of(last)->0;
    let next = (position + 1) as u32;
    lemma_digits(next);
    lemma_digit_order(last, ordering_bytes(next));
}

/// The key under which the next event of a room is put in order: the position after the last one, or
/// the first position; `None` where the last key stands for no position, or for the greatest.
pub fn next_ordering_key(last: Option<&[u8]>) -> (r: Option<Vec<u8>>)
    ensures
        ({
            let position = next_position(bytes_opt(last));
            match r {
                Some(key) => position is Some && key@ == ordering_bytes(position->0),
                None => position is None,
            }
        }),
{
    match last {
        None => Some(ordering_key(0)),
        Some(key) => match read_ordering_key(key) {
            Some(position) => if position < u32::MAX {
                Some(ordering_key(position + 1))
            } else {
                None
            },
            None => None,
        },
    }
}

/// Two names with an underscore between them.
pub open spec fn linked_names(a: Seq<char>, b: Seq<char>) -> Seq<char> {
    a + "_"@ + b
}

/// The name under which an event of a room is kept.
pub fn event_name(room_id: &str, event_id: &str) -> (name: String)
    ensures
        name@ == linked_names(room_id@, event_id@),
{
    let name = joined(room_id, "_");
    joined(name.as_str(), event_id)
}

/// The name under which a transaction of a token is kept.
pub fn txn_name(token: u128, txn_id: &str) -> (name: String)
    ensures
        name@ == linked_names(uuid_text(token), txn_id@),
{
    let text = show_uuid(token);
    event_name(text.as_str(), txn_id)
}

/// The deepest events of a room.
pub struct Depth {
    pub depth: i64,
    pub event_ids: KeySet<String>,
}

/// What a `Depth` says.
#[verifier::ext_equal]
pub struct DepthView {
    pub depth: i64,
    pub event_ids: Set<Seq<char>>,
}

impl View for Depth {
    type V = DepthView;

    open spec fn view(&self) -> DepthView {
        DepthView { depth: self.depth, event_ids: self.event_ids@ }
    }
}

/// What an optional `Depth` says.
pub open spec fn depth_opt(d: Option<Depth>) -> Option<DepthView> {
    match d {
        Some(d) => Some(d@),
        None => None,
    }
}

/// The deepest events of a room after one more event at a depth.
pub open spec fn depth_after(before: Option<DepthView>, depth: i64, id: Seq<char>) -> DepthView {
    match before {
        Some(old) => if old.depth > depth {
            old
        } else if old.depth == depth {
            DepthView { depth, event_ids: old.event_ids.insert(id) }
        } else {
            DepthView { depth, event_ids: set![id] }
        },
        None => DepthView { depth, event_ids: set![id] },
    }
}

impl Depth {
    /// The deepest events of a room after one more event at a depth.
    pub fn after(before: Option<Depth>, depth: i64, event_id: &str) -> (r: Depth)
        ensures
            r@ == depth_after(depth_opt(before), depth, event_id@),
    {
        match before {
            Some(old) => {
                if old.depth > depth {
                    // we are keeping track of the highest depth events. this event is lower than one
                    // that's already in there - so we don't do anything
                    return old;
                }
                if old.depth == depth {
                    let mut event_ids = old.event_ids;
                    let _new = event_ids.insert(event_id.to_owned());
                    return Depth { depth, event_ids };
                }
            },
            None => {},
        }
        // at this point, either there was no depth info, or the new pdu has greater depth, so we
        // create a new entry
        let mut event_ids: KeySet<String> = KeySet::new();
        let _new = event_ids.insert(event_id.to_owned());
        assert(event_ids@ =~= set![event_id@]);
        Depth { depth, event_ids }
    }
}

/// What is written down when an event is added to a room.
pub struct Addition {
    /// The name under which the event is kept.
    pub name: String,
    /// The key under which the event is put in order.
    pub key: Vec<u8>,
    /// The deepest events of the room.
    pub depth: Depth,
}

/// Decides what is written down when an event is added to a room, of which the last key and the
/// deepest events are given; `None` where there is no position left.
pub fn plan_addition(pdu: &StoredPdu, last: Option<&[u8]>, depth: Option<Depth>) -> (r: Option<
    Addition,
>)
    ensures
        ({
            let position = next_position(bytes_opt(last));
            match r {
                Some(a) => {
                    &&& a.name@ == linked_names(pdu@.pdu.room_id, pdu@.id())
                    &&& position is Some && a.key@ == ordering_bytes(position->0)
                    &&& a.depth@ == depth_after(depth_opt(depth), pdu@.pdu.depth, pdu@.id())
                },
                None => position is None,
            }
        }),
{
    match next_ordering_key(last) {
        Some(key) => Some(
            Addition {
                name: event_name(pdu.room_id(), pdu.event_id()),
                key,
                depth: Depth::after(depth, pdu.depth(), pdu.event_id()),
            },
        ),
        None => None,
    }
}

/// Decides whether the room of an event is cleared before the event is added: a create event starts
/// its room afresh, and every other event needs its room to be there.
pub fn starts_room(pdu: &StoredPdu, room_known: bool) -> (r: Result<bool, ErrorKind>)
    ensures
        match r {
            Ok(starts) => starts == (pdu@.pdu.content is Create) && (starts || room_known),
            Err(e) => e@ == ErrorView::RoomNotFound && !(pdu@.pdu.content is Create)
                && !room_known,
        },
{
    match pdu.event_content() {
        EventContent::Create(_) => Ok(true),
        _ => if room_known {
            Ok(false)
        } else {
            Err(ErrorKind::RoomNotFound)
        },
    }
}

/// The deepest events of a room, kept up to date with each event.
pub open spec fn depth_of(events: Seq<StoredView>) -> Option<DepthView>
    decreases events.len(),
{
    if events.len() == 0 {
        None
    } else {
        Some(
            depth_after(
                depth_of(events.drop_last()),
                events.last().pdu.depth,
                events.last().id(),
            ),
        )
    }
}

/// What is kept up to date are the greatest depth and the events at it.
pub proof fn law_depth_up_to_date(events: Seq<StoredView>)
    requires
        events.len() > 0,
    ensures
        depth_of(events) == Some(
            DepthView {
                depth: max_depth(events),
                event_ids: ids_at_depth(events, max_depth(events)).to_set(),
            },
        ),
    decreases events.len(),
{
    let before = events.drop_last();
    let e = events.last();
    let depth = max_depth(events);
    let now = ids_at_depth(events, depth);
    lemma_not_deeper(events);
    if events.len() == 1 {
        assert(before =~= Seq::<StoredView>::empty());
        assert(events[0] == e);
        assert(ids_at_depth(before, depth) =~= Seq::<Seq<char>>::empty());
        assert(now =~= seq![e.id()]);
        assert(now[0] == e.id());
        assert(now.to_set() =~= set![e.id()]);
    } else {
        law_depth_up_to_date(before);
        let old = max_depth(before);
        let kept = ids_at_depth(before, depth);
        if e.pdu.depth > old {
            lemma_not_deeper(before);
            lemma_none_at(before, depth);
            assert(now =~= seq![e.id()]);
            assert(now[0] == e.id());
            assert(now.to_set() =~= set![e.id()]);
        } else if e.pdu.depth == old {
            assert(now =~= kept.push(e.id()));
            assert forall|x: Seq<char>| now.to_set().contains(x) == kept.to_set().insert(
                e.id(),
            ).contains(x) by {
                if kept.contains(x) {
                    let i = choose|i: int| 0 <= i < kept.len() && kept[i] == x;
                    assert(now[i] == x);
                }
                if now.contains(x) && x != e.id() {
                    let i = choose|i: int| 0 <= i < now.len() && now[i] == x;
                    assert(kept[i] == x);
                }
                assert(now[kept.len() as int] == e.id());
            }
            assert(now.to_set() =~= kept.to_set().insert(e.id()));
        } else {
            assert(now =~= kept);
        }
    }
}

/// No event lies deeper than the greatest depth.
pub proof fn lemma_not_deeper(events: Seq<StoredView>)
    ensures
        forall|i: int| 0 <= i < events.len() ==> (#[trigger] events[i]).pdu.depth <= max_depth(events),
    decreases events.len(),
{
    if events.len() > 1 {
        lemma_not_deeper(events.drop_last());
        assert forall|i: int| 0 <= i < events.len() implies (#[trigger] events[i]).pdu.depth
            <= max_depth(events) by {
            if i < events.len() - 1 {
                assert(events.drop_last()[i] == events[i]);
            }
        }
    }
}

/// There is nothing at a depth below all events.
pub proof fn lemma_none_at(events: Seq<StoredView>, depth: i64)
    requires
        forall|i: int| 0 <= i < events.len() ==> (#[trigger] events[i]).pdu.depth < depth,
    ensures
        ids_at_depth(events, depth).len() == 0,
    decreases events.len(),
{
    if events.len() > 0 {
        assert(events[events.len() - 1].pdu.depth < depth);
        assert forall|i: int| 0 <= i < events.drop_last().len() implies (#[trigger] events.drop_last()[i]).pdu.depth
            < depth by {
            assert(events.drop_last()[i] == events[i]);
        }
        lemma_none_at(events.drop_last(), depth);
    }
}

/// What is kept of a room only while the server runs.
pub struct Ephemeral {
    pub ephemeral: Dict<String, JsonValue>,
    /// Until when each user counts as typing.
    pub typing: Dict<MatrixId, u64>,
}

impl View for Ephemeral {
    type V = RoomView;

    open spec fn view(&self) -> RoomView {
        RoomView { ephemeral: self.ephemeral@, typing: self.typing@, ..new_room() }
    }
}

impl Default for Ephemeral {
    fn default() -> (e: Self)
        ensures
            e@ == new_room(),
    {
        Ephemeral { ephemeral: Dict::new(), typing: Dict::new() }
    }
}

impl Ephemeral {
    /// The users who are typing.
    pub fn get_typing(&self, now: u64) -> (t: Typing)
        ensures
            t@ == still_typing(self@.typing, now),
    {
        list_typing(&self.typing, now, false)
    }

    /// All ephemeral events, with who is typing.
    pub fn get_all(&self, now: u64) -> (all: Dict<String, JsonValue>)
        ensures
            shows_ephemeral(all@, self@, still_typing(self@.typing, now)),
    {
        let mut all = self.ephemeral.duplicate();
        all.insert("m.typing".to_owned(), self.get_typing(now).to_json());
        assert(all@.remove("m.typing"@) =~= self@.ephemeral.remove("m.typing"@));
        all
    }

    /// The ephemeral event of a type. Where nobody is typing there is none that says so.
    pub fn get(&self, event_type: &str, now: u64) -> (r: Option<JsonValue>)
        ensures
            if event_type@ == "m.typing"@ {
                if still_typing(self@.typing, now) == Set::<Seq<char>>::empty() {
                    r is None
                } else {
                    r is Some && says_typing(r->0@, still_typing(self@.typing, now))
                }
            } else {
                json_opt(r) == (if self@.ephemeral.contains_key(event_type@) {
                    Some(self@.ephemeral[event_type@])
                } else {
                    None
                })
            },
    {
        if same(event_type, "m.typing") {
            let typing = self.get_typing(now);
            let ghost order = typing.user_ids.listing();
            let n: usize = typing.user_ids.len();
            proof {
                if n == 0 {
                    assert(typing@ =~= Set::<Seq<char>>::empty());
                } else {
                    assert(order.contains(order[0]));
                    assert(typing@.contains(order[0]));
                }
            }
            if n == 0 {
                None
            } else {
                Some(typing.to_json())
            }
        } else {
            match self.ephemeral.get(&event_type.to_owned()) {
                Some(content) => Some(content.duplicate()),
                None => None,
            }
        }
    }

    /// Puts in an ephemeral event of a type, or takes it away. Who is typing is not set in this way.
    pub fn set(&mut self, event_type: &str, content: Option<JsonValue>)
        requires
            event_type@ != "m.typing"@,
        ensures
            final(self)@ == (RoomView {
                ephemeral: match content {
                    Some(c) => old(self)@.ephemeral.insert(event_type@, c@),
                    None => old(self)@.ephemeral.remove(event_type@),
                },
                ..old(self)@
            }),
    {
        match content {
            Some(c) => self.ephemeral.insert(event_type.to_owned(), c),
            None => {
                let _gone = self.ephemeral.remove(&event_type.to_owned());
            },
        }
    }

    /// Notes that a user is typing, for some milliseconds, or has stopped.
    pub fn set_typing(&mut self, user_id: &MatrixId, is_typing: bool, timeout: u32, now: u64)
        ensures
            final(self)@ == with_typing(old(self)@, user_id@, is_typing, deadline(now, timeout)),
    {
        if is_typing {
            let until: u64 = if now <= u64::MAX - timeout as u64 {
                now + timeout as u64
            } else {
                u64::MAX
            };
            self.typing.insert(user_id.duplicate(), until);
        } else {
            let _gone = self.typing.remove(user_id);
        }
    }
}

} // verus!
