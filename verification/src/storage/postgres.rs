//! What a relational store notes beside the events themselves.
use crate::events::pdu::StoredPdu;
use crate::events::pdu::StoredView;
use crate::events::room::{membership_name, Membership};
use crate::events::{ContentView, EventContent};
use crate::text::{same, texts};
use vstd::prelude::*;

verus! {

/// A change to the rows beside the events.
pub enum RowChange {
    /// The room is noted.
    AddRoom { room_id: String },
    /// How the user stands to the room is noted, in place of what was noted before.
    SetMembership { user_id: String, room_id: String, membership: &'static str, event_id: String },
    /// Nothing is noted any more of how the user stands to the room.
    RemoveMembership { user_id: String, room_id: String },
    /// Nothing is to be done.
    Nothing,
}

/// The mathematical form of a `RowChange`.
pub enum RowChangeView {
    AddRoom { room_id: Seq<char> },
    SetMembership {
        user_id: Seq<char>,
        room_id: Seq<char>,
        membership: Seq<char>,
        event_id: Seq<char>,
    },
    RemoveMembership { user_id: Seq<char>, room_id: Seq<char> },
    Nothing,
}

impl View for RowChange {
    type V = RowChangeView;

    open spec fn view(&self) -> RowChangeView {
        match self {
            RowChange::AddRoom { room_id } => RowChangeView::AddRoom { room_id: room_id@ },
            RowChange::SetMembership { user_id, room_id, membership, event_id } => {
                RowChangeView::SetMembership {
                    user_id: user_id@,
                    room_id: room_id@,
                    membership: membership@,
                    event_id: event_id@,
                }
            },
            RowChange::RemoveMembership { user_id, room_id } => RowChangeView::RemoveMembership {
                user_id: user_id@,
                room_id: room_id@,
            },
            RowChange::Nothing => RowChangeView::Nothing,
        }
    }
}

/// What an event changes in the rows beside the events.
pub open spec fn row_change(e: StoredView) -> RowChangeView {
    match e.pdu.content {
        ContentView::Member(m) => match e.pdu.state_key {
            Some(user) => if m.membership == Membership::Leave {
                RowChangeView::RemoveMembership { user_id: user, room_id: e.pdu.room_id }
            } else {
                RowChangeView::SetMembership {
                    user_id: user,
                    room_id: e.pdu.room_id,
                    membership: membership_name(m.membership),
                    event_id: e.id(),
                }
            },
            None => RowChangeView::Nothing,
        },
        ContentView::Create(_) => RowChangeView::AddRoom { room_id: e.pdu.room_id },
        _ => RowChangeView::Nothing,
    }
}

/// What an event changes in the rows beside the events.
pub fn handle_event(event: &StoredPdu) -> (change: RowChange)
    ensures
        change@ == row_change(event@),
{
    match event.event_content() {
        EventContent::Member(member) => match event.state_key() {
            Some(user) => if member.membership == Membership::Leave {
                RowChange::RemoveMembership {
                    user_id: user.to_owned(),
                    room_id: event.room_id().to_owned(),
                }
            } else {
                RowChange::SetMembership {
                    user_id: user.to_owned(),
                    room_id: event.room_id().to_owned(),
                    membership: member.membership.name(),
                    event_id: event.event_id().to_owned(),
                }
            },
            None => RowChange::Nothing,
        },
        EventContent::Create(_) => RowChange::AddRoom { room_id: event.room_id().to_owned() },
        _ => RowChange::Nothing,
    }
}

/// A row that counts the members of a room in one way.
pub struct CountRow {
    pub membership: String,
    pub count: i64,
}

/// The count in the last row for a membership, or none.
pub open spec fn count_in(rows: Seq<CountRow>, membership: Seq<char>) -> i64
    decreases rows.len(),
{
    if rows.len() == 0 {
        0
    } else if rows.last().membership@ == membership {
        rows.last().count
    } else {
        count_in(rows.drop_last(), membership)
    }
}

/// How many have joined and how many are invited, by rows that count the members of a room.
pub fn member_counts(rows: &Vec<CountRow>) -> (counts: (i64, i64))
    ensures
        counts.0 == count_in(rows@, "join"@),
        counts.1 == count_in(rows@, "invite"@),
{
    let mut joined_member_count: i64 = 0;
    let mut invited_member_count: i64 = 0;
    let mut i: usize = 0;
    proof {
        reveal_strlit("join");
        reveal_strlit("invite");
        assert("join"@.len() != "invite"@.len());
    }
    while i < rows.len()
        invariant
            i <= rows@.len(),
            "join"@ != "invite"@,
            joined_member_count == count_in(rows@.take(i as int), "join"@),
            invited_member_count == count_in(rows@.take(i as int), "invite"@),
        decreases rows@.len() - i,
    {
        assert(rows@.take(i + 1).drop_last() =~= rows@.take(i as int));
        assert(rows@.take(i + 1).last() == rows@[i as int]);
        if same(rows[i].membership.as_str(), "join") {
            joined_member_count = rows[i].count;
        } else if same(rows[i].membership.as_str(), "invite") {
            invited_member_count = rows[i].count;
        }
        i += 1;
    }
    assert(rows@.take(i as int) =~= rows@);
    (joined_member_count, invited_member_count)
}

/// A row for one of the deepest events of a room.
pub struct DepthRow {
    pub depth: i64,
    pub event_id: String,
}

/// The events in some rows.
pub open spec fn row_ids(rows: Seq<DepthRow>) -> Seq<Seq<char>> {
    Seq::new(rows.len(), |i: int| rows[i].event_id@)
}

/// The deepest events of a room and their depth, by rows that hold one each; `None` where there is no
/// row.
pub fn prev_event_ids(rows: &Vec<DepthRow>) -> (r: Option<(i64, Vec<String>)>)
    ensures
        match r {
            Some((depth, ids)) => rows@.len() > 0 && depth == rows@.last().depth && texts(ids@)
                == row_ids(rows@),
            None => rows@.len() == 0,
        },
{
    let mut ids: Vec<String> = Vec::new();
    let mut i: usize = 0;
    while i < rows.len()
        invariant
            i <= rows@.len(),
            ids@.len() == i,
            forall|j: int| 0 <= j < i ==> (#[trigger] ids@[j])@ == rows@[j].event_id@,
        decreases rows@.len() - i,
    {
        ids.push(rows[i].event_id.clone());
        i += 1;
    }
    if rows.len() == 0 {
        return None;
    }
    assert(texts(ids@) =~= row_ids(rows@));
    Some((rows[rows.len() - 1].depth, ids))
}

} // verus!
