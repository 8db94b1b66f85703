//! Creating rooms and getting into them.
use crate::client::auth::AccessToken;
use crate::client::room_events::ContentFault;
use crate::dict::{Dict, Duplicate};
use crate::error::{fault_error, ErrorKind, ErrorView};
use crate::events::pdu::{StoredPdu, StoredView};
use crate::events::room::{
    default_levels, single, Create, CreateView, GuestAccess, GuestAccessType, HistoryVisibility,
    HistoryVisibilityType, JoinRule, JoinRules, Member, MemberView, Membership, Name, PowerLevels,
    Topic,
};
use crate::events::room_version::v4::{UnhashedPdu, UnhashedView};
use crate::events::room_version::VersionedPdu;
use crate::events::{ContentView, EventContent};
use crate::json::{Json, JsonValue};
use crate::outside::{now_millis, random_u64};
use crate::server::{caller_of, ServerState};
use crate::state::growth::law_all_stay_home;
use crate::state::rules::{law_resolved_none, law_resolved_one, resolved};
use crate::storage::{
    add_all, add_one, db_failed, empty_profile, find_in, is_state_of, latest_state, membership_of, new_room,
    stored_views, ProfileView, RoomView, Storage, StorageView, UserProfile,
};
use crate::text::{hex_padded, same, to_hex_padded};
use crate::util::mxid::{localpart_of, mxid_of, MatrixId};
use crate::util::storage::{add_event_at, adds, drafted, NewEvent, NewEventView};
use crate::validate::auth::AuthStatus;
use vstd::prelude::*;

verus! {

pub struct CreateRoomRequest {
    pub visibility: RoomVisibility,
    pub room_alias_name: Option<String>,
    pub name: Option<String>,
    pub topic: Option<String>,
    pub invite: Option<Vec<String>>,
    pub invite_3pid: Option<Vec<Invite3pid>>,
    pub room_version: Option<String>,
    pub creation_content: Option<Dict<String, JsonValue>>,
    pub initial_state: Option<Vec<StateEvent>>,
    pub preset: Option<Preset>,
    pub is_direct: Option<bool>,
    pub power_level_content_override: Option<PowerLevels>,
}

#[derive(Debug, PartialEq, Eq, Structural, Clone, Copy)]
pub enum RoomVisibility {
    Public,
    Private,
}

pub struct Invite3pid {
    pub id_server: String,
    pub medium: String,
    pub address: String,
}

/// A state event that a new room is to have, with its content as far as it could be read.
pub struct StateEvent {
    pub state_key: String,
    pub content: Result<EventContent, ContentFault>,
}

#[derive(Debug, PartialEq, Eq, Structural, Clone, Copy)]
pub enum Preset {
    PrivateChat,
    TrustedPrivateChat,
    PublicChat,
}

/// What a `StateEvent` says.
pub struct DraftView {
    pub state_key: Seq<char>,
    pub content: Result<ContentView, ErrorView>,
}

impl View for StateEvent {
    type V = DraftView;

    open spec fn view(&self) -> DraftView {
        DraftView {
            state_key: self.state_key@,
            content: match self.content {
                Ok(c) => Ok(c@),
                Err(f) => Err(fault_error(f.fault, f.words@)),
            },
        }
    }
}

/// The contents of a list of state events.
pub open spec fn draft_views(drafts: Seq<StateEvent>) -> Seq<DraftView> {
    Seq::new(drafts.len(), |i: int| drafts[i]@)
}

/// A state event whose content could be read.
pub open spec fn draft(content: ContentView, state_key: Seq<char>) -> DraftView {
    DraftView { state_key, content: Ok(content) }
}

/// The preset of a new room: what is asked for, or what goes with the visibility.
pub open spec fn preset_of(req: CreateRoomRequest) -> Preset {
    match req.preset {
        Some(preset) => preset,
        None => match req.visibility {
            RoomVisibility::Private => Preset::PrivateChat,
            RoomVisibility::Public => Preset::PublicChat,
        },
    }
}

/// Who may join a room with a preset.
pub open spec fn preset_join_rule(preset: Preset) -> JoinRule {
    match preset {
        Preset::PublicChat => JoinRule::Public,
        _ => JoinRule::Invite,
    }
}

/// Whether guests may join a room with a preset.
pub open spec fn preset_guest_access(preset: Preset) -> GuestAccessType {
    match preset {
        Preset::PublicChat => GuestAccessType::Forbidden,
        _ => GuestAccessType::CanJoin,
    }
}

/// The event that creates a room.
pub open spec fn create_draft(req: CreateRoomRequest, user_id: Seq<char>) -> DraftView {
    draft(
        ContentView::Create(
            CreateView {
                creator: user_id,
                room_version: Some("4"@),
                predecessor: None,
                extra: match req.creation_content {
                    Some(extra) => extra@,
                    None => Map::empty(),
                },
            },
        ),
        ""@,
    )
}

/// A text that a client may give, as a list.
pub open spec fn name_drafts(name: Option<String>) -> Seq<DraftView> {
    match name {
        Some(n) => seq![draft(ContentView::Name(n@), ""@)],
        None => Seq::empty(),
    }
}

/// A text that a client may give, as a list.
pub open spec fn topic_drafts(topic: Option<String>) -> Seq<DraftView> {
    match topic {
        Some(t) => seq![draft(ContentView::Topic(t@), ""@)],
        None => Seq::empty(),
    }
}

/// The invitation of a user to a new room.
pub open spec fn invite_draft(invitee: Seq<char>, is_direct: Option<bool>) -> DraftView {
    draft(
        ContentView::Member(
            MemberView {
                avatar_url: None,
                displayname: None,
                membership: Membership::Invite,
                is_direct,
            },
        ),
        invitee,
    )
}

/// The invitations to a new room.
pub open spec fn invite_drafts(invite: Option<Vec<String>>, is_direct: Option<bool>) -> Seq<
    DraftView,
> {
    match invite {
        Some(list) => Seq::new(list@.len(), |i: int| invite_draft(list@[i]@, is_direct)),
        None => Seq::empty(),
    }
}

/// The further state events that a client wants in a new room.
pub open spec fn initial_drafts(initial: Option<Vec<StateEvent>>) -> Seq<DraftView> {
    match initial {
        Some(list) => draft_views(list@),
        None => Seq::empty(),
    }
}

/// The events with which every new room begins, after the one that creates it.
pub open spec fn common_drafts(
    req: CreateRoomRequest,
    user_id: Seq<char>,
    profile: ProfileView,
    is_direct: Option<bool>,
) -> Seq<DraftView> {
    let preset = preset_of(req);
    seq![
        draft(
            ContentView::Member(
                MemberView {
                    avatar_url: profile.avatar_url,
                    displayname: profile.displayname,
                    membership: Membership::Join,
                    is_direct,
                },
            ),
            user_id,
        ),
        draft(
            ContentView::PowerLevels(
                match req.power_level_content_override {
                    Some(levels) => levels@,
                    None => default_levels(),
                },
            ),
            ""@,
        ),
        draft(ContentView::JoinRules(JoinRules { join_rule: preset_join_rule(preset) }), ""@),
        draft(
            ContentView::HistoryVisibility(
                HistoryVisibility { history_visibility: HistoryVisibilityType::Shared },
            ),
            ""@,
        ),
        draft(
            ContentView::GuestAccess(GuestAccess { guest_access: preset_guest_access(preset) }),
            ""@,
        ),
    ]
}

/// The events of a new room, after the one that creates it.
pub open spec fn setup_drafts(
    req: CreateRoomRequest,
    user_id: Seq<char>,
    profile: ProfileView,
    is_direct: Option<bool>,
) -> Seq<DraftView> {
    common_drafts(req, user_id, profile, is_direct) + initial_drafts(req.initial_state)
        + name_drafts(req.name) + topic_drafts(req.topic) + invite_drafts(req.invite, is_direct)
}

/// The first fault in the contents of some events.
pub open spec fn first_fault(drafts: Seq<DraftView>) -> Option<ErrorView>
    decreases drafts.len(),
{
    if drafts.len() == 0 {
        None
    } else {
        match drafts[0].content {
            Err(e) => Some(e),
            Ok(_) => first_fault(drafts.drop_first()),
        }
    }
}

/// Whether the version of a new room is one that the server knows: the fourth, which is also taken
/// where none is asked for.
pub open spec fn version_supported(req: CreateRoomRequest) -> bool {
    req.room_version is Some ==> req.room_version->0@ == "4"@
}

/// The identifier of a room, made of a number and the domain.
pub open spec fn room_id_of(number: u64, domain: Seq<char>) -> Seq<char> {
    seq!['!'] + hex_padded(number as nat, 16, true) + seq![':'] + domain
}

/// Names a room after a number and the domain.
pub fn name_room(number: u64, domain: &str) -> (id: String)
    ensures
        id@ == room_id_of(number, domain@),
{
    let mut id: String = String::new();
    id.push('!');
    id.append(to_hex_padded(number, 16, true).as_str());
    id.push(':');
    id.append(domain);
    assert(id@ =~= room_id_of(number, domain@));
    id
}

fn ready(content: EventContent, state_key: &str) -> (e: StateEvent)
    ensures
        e@ == draft(content@, state_key@),
{
    StateEvent { state_key: state_key.to_owned(), content: Ok(content) }
}

/// The event that creates a room.
pub fn draft_create(extra: Option<Dict<String, JsonValue>>, user_id: &MatrixId) -> (e: EventContent)
    ensures
        e@ == ContentView::Create(
            CreateView {
                creator: user_id@,
                room_version: Some("4"@),
                predecessor: None,
                extra: match extra {
                    Some(extra) => extra@,
                    None => Map::empty(),
                },
            },
        ),
{
    EventContent::Create(
        Create {
            creator: user_id.duplicate(),
            room_version: Some("4".to_owned()),
            predecessor: None,
            extra: match extra {
                Some(extra) => extra,
                None => Dict::new(),
            },
        },
    )
}

/// The events of a new room, after the one that creates it.
pub fn draft_setup(
    req: CreateRoomRequest,
    user_id: &MatrixId,
    profile: UserProfile,
    is_direct: Option<bool>,
) -> (drafts: Vec<StateEvent>)
    ensures
        draft_views(drafts@) == setup_drafts(req, user_id@, profile@, is_direct),
{
    let preset = match req.preset {
        Some(preset) => preset,
        None => match req.visibility {
            RoomVisibility::Private => Preset::PrivateChat,
            RoomVisibility::Public => Preset::PublicChat,
        },
    };
    let (join_rule, guest_access) = match preset {
        Preset::PublicChat => (JoinRule::Public, GuestAccessType::Forbidden),
        _ => (JoinRule::Invite, GuestAccessType::CanJoin),
    };
    let levels = match req.power_level_content_override {
        Some(levels) => levels,
        None => PowerLevels::default(),
    };
    let mut drafts: Vec<StateEvent> = Vec::new();
    drafts.push(
        ready(
            EventContent::Member(
                Member {
                    avatar_url: profile.avatar_url,
                    displayname: profile.displayname,
                    membership: Membership::Join,
                    is_direct,
                },
            ),
            user_id.as_str(),
        ),
    );
    drafts.push(ready(EventContent::PowerLevels(levels), ""));
    drafts.push(ready(EventContent::JoinRules(JoinRules { join_rule }), ""));
    drafts.push(
        ready(
            EventContent::HistoryVisibility(
                HistoryVisibility { history_visibility: HistoryVisibilityType::Shared },
            ),
            "",
        ),
    );
    drafts.push(ready(EventContent::GuestAccess(GuestAccess { guest_access }), ""));
    let ghost common = common_drafts(req, user_id@, profile@, is_direct);
    assert(draft_views(drafts@) =~= common);
    match req.initial_state {
        Some(list) => {
            let ghost wanted = draft_views(list@);
            let mut rest = list;
            append_drafts(&mut drafts, &mut rest);
            assert(draft_views(drafts@) =~= common + wanted);
        },
        None => {
            assert(draft_views(drafts@) =~= common + Seq::<DraftView>::empty());
        },
    }
    let ghost so_far = common + initial_drafts(req.initial_state);
    match req.name {
        Some(name) => drafts.push(ready(EventContent::Name(Name { name }), "")),
        None => {},
    }
    assert(draft_views(drafts@) =~= so_far + name_drafts(req.name));
    match req.topic {
        Some(topic) => drafts.push(ready(EventContent::Topic(Topic { topic }), "")),
        None => {},
    }
    let ghost named = so_far + name_drafts(req.name) + topic_drafts(req.topic);
    assert(draft_views(drafts@) =~= named);
    match &req.invite {
        Some(list) => {
            let ghost wanted = invite_drafts(req.invite, is_direct);
            let mut i: usize = 0;
            assert(named + wanted.take(0) =~= named);
            while i < list.len()
                invariant
                    i <= list@.len(),
                    wanted == invite_drafts(req.invite, is_direct),
                    req.invite == Some(*list),
                    draft_views(drafts@) == named + wanted.take(i as int),
                decreases list@.len() - i,
            {
                let ghost before = draft_views(drafts@);
                let member = Member {
                    avatar_url: None,
                    displayname: None,
                    membership: Membership::Invite,
                    is_direct,
                };
                drafts.push(ready(EventContent::Member(member), list[i].as_str()));
                proof {
                    assert(wanted[i as int] == drafts@[drafts@.len() - 1]@);
                    assert(draft_views(drafts@) =~= before.push(wanted[i as int]));
                    assert(named + wanted.take(i + 1) =~= (named + wanted.take(i as int)).push(
                        wanted[i as int],
                    ));
                }
                i += 1;
            }
            assert(wanted.take(wanted.len() as int) =~= wanted);
        },
        None => {
            assert(named + Seq::<DraftView>::empty() =~= named);
        },
    }
    drafts
}

/// Moves events from one list to the end of another.
fn append_drafts(drafts: &mut Vec<StateEvent>, more: &mut Vec<StateEvent>)
    ensures
        draft_views(final(drafts)@) == draft_views(old(drafts)@) + draft_views(old(more)@),
{
    let ghost before = drafts@;
    let ghost added = more@;
    drafts.append(more);
    assert(draft_views(drafts@) =~= draft_views(before) + draft_views(added));
}

/// The next event in the history of a new room: it follows the one before it, and from the fourth on
/// cites the power levels.
pub open spec fn link(
    before: Seq<StoredView>,
    content: ContentView,
    state_key: Seq<char>,
    room: Seq<char>,
    sender: Seq<char>,
    domain: Seq<char>,
    now: i64,
) -> UnhashedView {
    UnhashedView {
        content,
        room_id: room,
        sender,
        state_key: Some(state_key),
        unsigned: None,
        redacts: None,
        origin: domain,
        origin_server_ts: now,
        prev_events: if before.len() == 0 {
            Seq::empty()
        } else {
            seq![before.last().id()]
        },
        depth: before.len() as i64,
        auth_events: if before.len() < 3 {
            Seq::empty()
        } else {
            seq![before[2].id()]
        },
    }
}

/// The history of a new room. There is none where an event cannot be hashed.
pub open spec fn chained(
    drafts: Seq<DraftView>,
    room: Seq<char>,
    sender: Seq<char>,
    domain: Seq<char>,
    now: i64,
) -> Option<Seq<StoredView>>
    decreases drafts.len(),
{
    if drafts.len() == 0 {
        Some(Seq::empty())
    } else {
        match chained(drafts.drop_last(), room, sender, domain, now) {
            None => None,
            Some(before) => match link(
                before,
                drafts.last().content->Ok_0,
                drafts.last().state_key,
                room,
                sender,
                domain,
                now,
            ).finalized() {
                None => None,
                Some(pdu) => {
                    let stored = StoredView { pdu, passed: true };
                    if stored.storable() {
                        Some(before.push(stored))
                    } else {
                        None
                    }
                },
            },
        }
    }
}

/// Adds the next event to the history of a new room; nothing is added where it cannot be hashed.
fn add_link(
    events: &mut Vec<StoredPdu>,
    content: EventContent,
    state_key: String,
    room_id: &str,
    sender: &MatrixId,
    domain: &str,
    now: i64,
) -> (done: bool)
    ensures
        ({
            let before = stored_views(old(events)@);
            let pdu = link(
                before,
                content@,
                state_key@,
                room_id@,
                sender@,
                domain@,
                now,
            ).finalized();
            if done {
                &&& pdu is Some && (StoredView { pdu: pdu->0, passed: true }).storable()
                &&& stored_views(final(events)@) == before.push(
                    StoredView { pdu: pdu->0, passed: true },
                )
            } else {
                pdu is None || !(StoredView { pdu: pdu->0, passed: true }).storable()
            }
        }),
{
    let ghost before = stored_views(events@);
    let n: usize = events.len();
    let mut prev_events: Vec<String> = Vec::new();
    let mut auth_events: Vec<String> = Vec::new();
    if n > 0 {
        prev_events.push(events[n - 1].event_id().to_owned());
        assert(before.last() == events@[n - 1]@);
    }
    if n >= 3 {
        auth_events.push(events[2].event_id().to_owned());
        assert(before[2] == events@[2]@);
    }
    let unhashed = UnhashedPdu {
        event_content: content,
        room_id: room_id.to_owned(),
        sender: sender.duplicate(),
        state_key: Some(state_key),
        unsigned: None,
        redacts: None,
        origin: domain.to_owned(),
        origin_server_ts: now,
        prev_events,
        depth: n as i64,
        auth_events,
    };
    proof {
        let wanted = link(before, content@, state_key@, room_id@, sender@, domain@, now);
        assert(unhashed@.prev_events =~= wanted.prev_events);
        assert(unhashed@.auth_events =~= wanted.auth_events);
        assert(unhashed@ == wanted);
    }
    match unhashed.try_finalize() {
        Some(pdu) => match StoredPdu::new(VersionedPdu::V4(pdu), AuthStatus::Pass) {
            Some(stored) => {
                let ghost s = stored@;
                events.push(stored);
                assert(stored_views(events@) =~= before.push(s));
                true
            },
            None => false,
        },
        None => false,
    }
}

/// The first fault in the contents of some events, if there is one.
fn find_fault(drafts: &Vec<StateEvent>) -> (r: Option<usize>)
    ensures
        match r {
            Some(i) => i < drafts@.len() && drafts@[i as int].content is Err && first_fault(
                draft_views(drafts@),
            ) == Some(draft_views(drafts@)[i as int].content->Err_0),
            None => first_fault(draft_views(drafts@)) is None && forall|j: int|
                0 <= j < drafts@.len() ==> (#[trigger] drafts@[j]).content is Ok,
        },
{
    let ghost all = draft_views(drafts@);
    let mut i: usize = 0;
    assert(all.skip(0) =~= all);
    while i < drafts.len()
        invariant
            i <= drafts@.len(),
            all == draft_views(drafts@),
            first_fault(all) == first_fault(all.skip(i as int)),
            forall|j: int| 0 <= j < i ==> (#[trigger] drafts@[j]).content is Ok,
        decreases drafts@.len() - i,
    {
        assert(all.skip(i as int)[0] == drafts@[i as int]@);
        assert(all.skip(i as int).drop_first() =~= all.skip(i + 1));
        match &drafts[i].content {
            Ok(_) => {},
            Err(_) => return Some(i),
        }
        i += 1;
    }
    assert(all.skip(i as int).len() == 0);
    None
}

/// The history of a new room; `None` where an event cannot be hashed.
fn chain(
    drafts: Vec<StateEvent>,
    room_id: &str,
    sender: &MatrixId,
    domain: &str,
    now: i64,
) -> (r: Option<Vec<StoredPdu>>)
    requires
        forall|j: int| 0 <= j < drafts@.len() ==> (#[trigger] drafts@[j]).content is Ok,
    ensures
        match r {
            Some(events) => chained(draft_views(drafts@), room_id@, sender@, domain@, now) == Some(
                stored_views(events@),
            ),
            None => chained(draft_views(drafts@), room_id@, sender@, domain@, now) is None,
        },
{
    let ghost all = draft_views(drafts@);
    let ghost total = drafts@.len() as int;
    let mut reversed: Vec<StateEvent> = Vec::new();
    let mut rest = drafts;
    while rest.len() > 0
        invariant
            total == all.len(),
            rest@.len() + reversed@.len() == total,
            forall|j: int| 0 <= j < rest@.len() ==> (#[trigger] rest@[j])@ == all[j],
            forall|j: int| 0 <= j < rest@.len() ==> (#[trigger] rest@[j]).content is Ok,
            forall|j: int|
                0 <= j < reversed@.len() ==> (#[trigger] reversed@[j])@ == all[total - 1 - j],
            forall|j: int| 0 <= j < reversed@.len() ==> (#[trigger] reversed@[j]).content is Ok,
        decreases rest@.len(),
    {
        let next = rest.pop().unwrap();
        reversed.push(next);
    }
    let mut events: Vec<StoredPdu> = Vec::new();
    assert(all.take(0) =~= Seq::<DraftView>::empty());
    assert(stored_views(events@) =~= Seq::<StoredView>::empty());
    while reversed.len() > 0
        invariant
            all == draft_views(drafts@),
            total == all.len(),
            reversed@.len() <= total,
            forall|j: int|
                0 <= j < reversed@.len() ==> (#[trigger] reversed@[j])@ == all[total - 1 - j],
            forall|j: int| 0 <= j < reversed@.len() ==> (#[trigger] reversed@[j]).content is Ok,
            chained(all.take(total - reversed@.len()), room_id@, sender@, domain@, now) == Some(
                stored_views(events@),
            ),
        decreases reversed@.len(),
    {
        let ghost i = total - reversed@.len();
        let next = reversed.pop().unwrap();
        proof {
            assert(next@ == all[i]);
            assert(all.take(i + 1).drop_last() =~= all.take(i));
            assert(all.take(i + 1).last() == all[i]);
        }
        let content = match next.content {
            Ok(content) => content,
            Err(_) => {
                assert(false);
                return None;
            },
        };
        if !add_link(&mut events, content, next.state_key, room_id, sender, domain, now) {
            proof {
                lemma_chain_stops(all, i + 1, room_id@, sender@, domain@, now);
            }
            return None;
        }
    }
    assert(all.take(total) =~= all);
    Some(events)
}

/// There is no history where there is none of a part of it.
proof fn lemma_chain_stops(
    drafts: Seq<DraftView>,
    n: int,
    room: Seq<char>,
    sender: Seq<char>,
    domain: Seq<char>,
    now: i64,
)
    requires
        0 <= n <= drafts.len(),
        chained(drafts.take(n), room, sender, domain, now) is None,
    ensures
        chained(drafts, room, sender, domain, now) is None,
    decreases drafts.len(),
{
    if n < drafts.len() {
        assert(drafts.drop_last().take(n) =~= drafts.take(n));
        lemma_chain_stops(drafts.drop_last(), n, room, sender, domain, now);
    } else {
        assert(drafts.take(n) =~= drafts);
    }
}

/// The history of a new room belongs to the room, and has an event for each draft.
pub proof fn lemma_chained(
    drafts: Seq<DraftView>,
    room: Seq<char>,
    sender: Seq<char>,
    domain: Seq<char>,
    now: i64,
)
    requires
        chained(drafts, room, sender, domain, now) is Some,
    ensures
        ({
            let events = chained(drafts, room, sender, domain, now)->0;
            &&& events.len() == drafts.len()
            &&& forall|i: int|
                0 <= i < events.len() ==> (#[trigger] events[i]).pdu.room_id == room && events[i].passed
                    && events[i].pdu.sender == sender && events[i].pdu.state_key == Some(
                    drafts[i].state_key,
                ) && events[i].pdu.content == drafts[i].content->Ok_0
        }),
    decreases drafts.len(),
{
    if drafts.len() > 0 {
        lemma_chained(drafts.drop_last(), room, sender, domain, now);
    }
}

/// A room is created whatever else there is: its first event makes it.
pub proof fn lemma_room_made(
    rooms: Map<Seq<char>, RoomView>,
    events: Seq<StoredView>,
    room: Seq<char>,
)
    requires
        events.len() > 0,
        events[0].pdu.content is Create,
        forall|i: int| 0 <= i < events.len() ==> (#[trigger] events[i]).pdu.room_id == room,
    ensures
        add_all(rooms, events) is Some,
        add_all(rooms, events)->0.contains_key(room),
        forall|n: int|
            0 < n <= events.len() ==> (#[trigger] add_all(rooms, events.take(n))) is Some,
    decreases events.len(),
{
    if events.len() > 1 {
        lemma_room_made(rooms, events.drop_last(), room);
        assert(events[events.len() - 1].pdu.room_id == room);
    } else {
        assert(events.drop_last() =~= Seq::<StoredView>::empty());
        assert(add_all(rooms, events.drop_last()) == Some(rooms));
        assert(events.last() == events[0]);
    }
    assert(add_all(rooms, events) == add_one(
        add_all(rooms, events.drop_last())->0,
        events.last(),
    ));
    assert forall|n: int| 0 < n <= events.len() implies (#[trigger] add_all(
        rooms,
        events.take(n),
    )) is Some by {
        if n == events.len() {
            assert(events.take(n) =~= events);
        } else {
            assert(events.drop_last().take(n) =~= events.take(n));
        }
    }
}

/// A new room holds its history, and nothing else, and other rooms stay as they are.
pub proof fn law_room_created(
    rooms: Map<Seq<char>, RoomView>,
    events: Seq<StoredView>,
    room: Seq<char>,
)
    requires
        events.len() > 0,
        forall|i: int| 0 <= i < events.len() ==> (#[trigger] events[i]).pdu.room_id == room,
        forall|i: int|
            0 <= i < events.len() ==> ((#[trigger] events[i]).pdu.content is Create <==> i == 0),
    ensures
        add_all(rooms, events) == Some(rooms.insert(room, RoomView { events, ..new_room() })),
    decreases events.len(),
{
    let before = events.drop_last();
    if events.len() == 1 {
        assert(before =~= Seq::<StoredView>::empty());
        assert(events[0] == events.last());
        assert(new_room().events.push(events[0]) =~= events);
        let made = rooms.insert(room, new_room());
        assert(made.insert(room, RoomView { events, ..new_room() }) =~= rooms.insert(
            room,
            RoomView { events, ..new_room() },
        ));
    } else {
        law_room_created(rooms, before, room);
        assert(events[events.len() - 1] == events.last());
        let made = rooms.insert(room, RoomView { events: before, ..new_room() });
        assert(before.push(events.last()) =~= events);
        assert(made.insert(room, RoomView { events, ..new_room() }) =~= rooms.insert(
            room,
            RoomView { events, ..new_room() },
        ));
    }
}

/// The creator of a room has joined it, unless the events of the room say otherwise afterwards.
pub proof fn law_creator_joined(
    drafts: Seq<DraftView>,
    room: Seq<char>,
    sender: Seq<char>,
    domain: Seq<char>,
    now: i64,
)
    requires
        chained(drafts, room, sender, domain, now) is Some,
        drafts.len() > 1,
        drafts[1].state_key == sender,
        drafts[1].content->Ok_0 is Member,
        drafts[1].content->Ok_0->Member_0.membership == Membership::Join,
        forall|i: int|
            1 < i < drafts.len() ==> !((#[trigger] drafts[i]).state_key == sender
                && drafts[i].content->Ok_0.label() == "m.room.member"@),
    ensures
        membership_of(chained(drafts, room, sender, domain, now)->0, sender) == Some(
            Membership::Join,
        ),
{
    let events = chained(drafts, room, sender, domain, now)->0;
    lemma_chained(drafts, room, sender, domain, now);
    crate::events::law_kind_names(crate::events::ContentKind::Member);
    assert(events[1].pdu.content == drafts[1].content->Ok_0);
    assert(is_state_of(events[1], "m.room.member"@, sender));
    assert forall|i: int| 1 < i < events.len() implies !is_state_of(
        #[trigger] events[i],
        "m.room.member"@,
        sender,
    ) by {
        assert(events[i].pdu.content == drafts[i].content->Ok_0);
        assert(events[i].pdu.state_key == Some(drafts[i].state_key));
    }
    lemma_latest_at(events, "m.room.member"@, sender, 1);
}

proof fn lemma_latest_at(events: Seq<StoredView>, ty: Seq<char>, key: Seq<char>, at: int)
    requires
        0 <= at < events.len(),
        is_state_of(events[at], ty, key),
        forall|i: int| at < i < events.len() ==> !is_state_of(#[trigger] events[i], ty, key),
    ensures
        latest_state(events, ty, key) == Some(events[at]),
    decreases events.len(),
{
    if at < events.len() - 1 {
        assert(!is_state_of(events[events.len() - 1], ty, key));
        let rest = events.drop_last();
        assert(rest[at] == events[at]);
        assert forall|i: int| at < i < rest.len() implies !is_state_of(
            #[trigger] rest[i],
            ty,
            key,
        ) by {
            assert(rest[i] == events[i]);
        }
        lemma_latest_at(rest, ty, key, at);
    }
}

/// The state after each event of a new room is known, so that more events can follow.
pub proof fn law_created_room_known(
    rooms: Map<Seq<char>, RoomView>,
    drafts: Seq<DraftView>,
    room: Seq<char>,
    sender: Seq<char>,
    domain: Seq<char>,
    now: i64,
    i: int,
)
    requires
        chained(drafts, room, sender, domain, now) is Some,
        rooms.contains_key(room),
        rooms[room].events == chained(drafts, room, sender, domain, now)->0,
        0 <= i < drafts.len(),
    ensures
        resolved(
            rooms,
            room,
            seq![chained(drafts, room, sender, domain, now)->0[i].id()],
        ) is Some,
    decreases i,
{
    let events = chained(drafts, room, sender, domain, now)->0;
    lemma_chained(drafts, room, sender, domain, now);
    let id = events[i].id();
    let at = lemma_first_with_id(events, i);
    lemma_link_before(drafts, room, sender, domain, now, at);
    law_resolved_one(rooms, room, id);
    if at == 0 {
        law_resolved_none(rooms, room);
        assert(events[0].pdu.prev_events =~= Seq::<Seq<char>>::empty());
    } else {
        law_created_room_known(rooms, drafts, room, sender, domain, now, at - 1);
    }
}

/// The position of the event that is found under an identifier.
proof fn lemma_first_with_id(events: Seq<StoredView>, i: int) -> (at: int)
    requires
        0 <= i < events.len(),
    ensures
        0 <= at <= i,
        find_in(events, events[i].id()) == Some(events[at]),
    decreases events.len(),
{
    if events[0].id() == events[i].id() {
        0
    } else {
        let rest = events.drop_first();
        assert(rest[i - 1] == events[i]);
        let at = lemma_first_with_id(rest, i - 1);
        assert(rest[at] == events[at + 1]);
        at + 1
    }
}

/// Each event of a new room follows the one before it.
proof fn lemma_link_before(
    drafts: Seq<DraftView>,
    room: Seq<char>,
    sender: Seq<char>,
    domain: Seq<char>,
    now: i64,
    i: int,
)
    requires
        chained(drafts, room, sender, domain, now) is Some,
        0 <= i < drafts.len(),
    ensures
        ({
            let events = chained(drafts, room, sender, domain, now)->0;
            &&& events.len() == drafts.len()
            &&& events[i].pdu.prev_events == (if i == 0 {
                Seq::empty()
            } else {
                seq![events[i - 1].id()]
            })
        }),
    decreases drafts.len(),
{
    lemma_chained(drafts, room, sender, domain, now);
    lemma_chained(drafts.drop_last(), room, sender, domain, now);
    let before = chained(drafts.drop_last(), room, sender, domain, now)->0;
    let events = chained(drafts, room, sender, domain, now)->0;
    assert(events =~= before.push(events.last()));
    if i < drafts.len() - 1 {
        lemma_link_before(drafts.drop_last(), room, sender, domain, now, i);
        assert(events[i] == before[i]);
        if i > 0 {
            assert(events[i - 1] == before[i - 1]);
        }
    } else if i > 0 {
        assert(before.last() == events[i - 1]);
    }
}

/// Whether the members of a room are direct partners, where nothing is said: they are not.
pub open spec fn directness(is_direct: Option<bool>) -> Option<bool> {
    Some(is_direct is Some && is_direct->0)
}

/// The events of a new room.
pub open spec fn room_drafts(
    req: CreateRoomRequest,
    user_id: Seq<char>,
    profile: ProfileView,
) -> Seq<DraftView> {
    seq![create_draft(req, user_id)] + setup_drafts(
        req,
        user_id,
        profile,
        directness(req.is_direct),
    )
}

/// Creates a room, named by a number, at a given time; `None` where an event cannot be hashed.
pub fn create_room_with<S: Storage>(
    state: &mut ServerState<S>,
    token: AccessToken,
    req: CreateRoomRequest,
    number: u64,
    now: i64,
) -> (r: Result<Option<JsonValue>, ErrorKind>)
    requires
        old(state).wf(),
    ensures
        final(state).config == old(state).config,
        final(state).db.reliable() == old(state).db.reliable(),
        !db_failed(r) ==> final(state).wf(),
        db_failed(r) ==> !old(state).db.reliable(),
        !db_failed(r) ==> creates_room(
            r,
            old(state).db@,
            final(state).db@,
            old(state).config.domain@,
            token@,
            req,
            number,
            now,
        ),
{
    let ghost before = state.db@;
    let ghost domain = state.config.domain@;
    let (username, user_id) = match state.identify(token.0) {
        Ok(found) => found,
        Err(e) => return Err(e),
    };
    match &req.room_version {
        Some(version) => if !same(version.as_str(), "4") {
            return Err(ErrorKind::UnsupportedRoomVersion);
        },
        None => {},
    }
    let room_id = name_room(number, state.config.domain.as_str());
    let profile = match state.db.get_profile(username.as_str()) {
        Ok(profile) => profile.unwrap(),
        Err(e) => return Err(e),
    };
    let ghost user = user_id@;
    let ghost wanted = room_drafts(req, user, profile@);
    let ghost asked = req;
    let is_direct = Some(
        match req.is_direct {
            Some(b) => b,
            None => false,
        },
    );
    let mut req = req;
    let mut extra: Option<Dict<String, JsonValue>> = None;
    std::mem::swap(&mut extra, &mut req.creation_content);
    let mut drafts: Vec<StateEvent> = Vec::new();
    drafts.push(ready(draft_create(extra, &user_id), ""));
    let mut setup = draft_setup(req, &user_id, profile, is_direct);
    assert(draft_views(drafts@) =~= seq![create_draft(asked, user)]);
    append_drafts(&mut drafts, &mut setup);
    assert(draft_views(drafts@) =~= wanted);
    match find_fault(&drafts) {
        Some(i) => {
            let faulty = drafts.swap_remove(i);
            match faulty.content {
                Ok(_) => {
                    assert(false);
                    return Ok(None);
                },
                Err(f) => return Err(ErrorKind::from_json_fault(f.fault, f.words)),
            }
        },
        None => {},
    }
    let events = match chain(
        drafts,
        room_id.as_str(),
        &user_id,
        state.config.domain.as_str(),
        now,
    ) {
        Some(events) => events,
        None => return Ok(None),
    };
    proof {
        let list = stored_views(events@);
        lemma_chained(wanted, room_id@, user, domain, now);
        assert(list[0].pdu.content == wanted[0].content->Ok_0);
        lemma_room_made(before.rooms, list, room_id@);
        law_all_stay_home(before.rooms, list);
        assert forall|n: int| 0 <= n < list.len() implies (#[trigger] add_all(
            before.rooms,
            list.take(n + 1),
        )) is Some by {}
    }
    state.state_resolver.forget();
    match state.db.add_pdus(&events) {
        Ok(()) => {},
        Err(e) => {
            proof {
                if !crate::error::is_database_error(e@) {
                    let list = stored_views(events@);
                    let n = choose|n: int|
                        0 <= n < events@.len() && (#[trigger] add_all(
                            before.rooms,
                            list.take(n),
                        )) is Some && add_all(before.rooms, list.take(n + 1)) is None;
                    assert(add_all(before.rooms, list.take(n + 1)) is Some);
                }
            }
            return Err(e);
        },
    }
    let mut answer = JsonValue::object();
    answer.insert("room_id", JsonValue::text(room_id.as_str()));
    assert(answer@->Object_0 =~= single("room_id"@, Json::Text(room_id@))->Object_0);
    Ok(Some(answer))
}

/// Whether a room was created as it should be: it holds its events, one after the other. Nothing is
/// changed where the room cannot be created.
pub open spec fn creates_room(
    r: Result<Option<JsonValue>, ErrorKind>,
    before: StorageView,
    after: StorageView,
    domain: Seq<char>,
    token: u128,
    req: CreateRoomRequest,
    number: u64,
    now: i64,
) -> bool {
    let room = room_id_of(number, domain);
    match caller_of(before, token) {
        Err(e) => r is Err && r->Err_0@ == e && after == before,
        Ok(name) => {
            let drafts = room_drafts(req, mxid_of(name, domain), before.users[name].profile);
            if !version_supported(req) {
                r is Err && r->Err_0@ == ErrorView::UnsupportedRoomVersion && after == before
            } else {
                match first_fault(drafts) {
                    Some(e) => r is Err && r->Err_0@ == e && after == before,
                    None => match chained(drafts, room, mxid_of(name, domain), domain, now) {
                        None => r is Ok && r->Ok_0 is None && after == before,
                        Some(events) => {
                            &&& r is Ok && r->Ok_0 is Some
                            &&& r->Ok_0->0@ == single("room_id"@, Json::Text(room))
                            &&& add_all(before.rooms, events) is Some
                            &&& after == (StorageView {
                                rooms: add_all(before.rooms, events)->0,
                                ..before
                            })
                        },
                    },
                }
            }
        },
    }
}

/// Creates a room; `None` where an event cannot be hashed.
pub fn create_room<S: Storage>(
    state: &mut ServerState<S>,
    token: AccessToken,
    req: CreateRoomRequest,
) -> (r: Result<Option<JsonValue>, ErrorKind>)
    requires
        old(state).wf(),
    ensures
        final(state).config == old(state).config,
        final(state).db.reliable() == old(state).db.reliable(),
        !db_failed(r) ==> final(state).wf(),
        db_failed(r) ==> !old(state).db.reliable(),
        !db_failed(r) ==> exists|number: u64, now: i64| #[trigger]
            creates_room(
                r,
                old(state).db@,
                final(state).db@,
                old(state).config.domain@,
                token@,
                req,
                number,
                now,
            ),
{
    let number: u64 = random_u64();
    let now: i64 = now_millis();
    create_room_with(state, token, req, number, now)
}

pub struct InviteRequest {
    pub user_id: MatrixId,
}

/// The profile of a user, or an empty one of someone who is not known.
pub open spec fn profile_or_empty(s: StorageView, name: Seq<char>) -> ProfileView {
    if s.users.contains_key(name) {
        s.users[name].profile
    } else {
        empty_profile()
    }
}

/// The event by which someone becomes a member.
pub open spec fn member_event(
    profile: ProfileView,
    membership: Membership,
    sender: Seq<char>,
    target: Seq<char>,
) -> NewEventView {
    NewEventView {
        content: ContentView::Member(
            MemberView {
                avatar_url: profile.avatar_url,
                displayname: profile.displayname,
                membership,
                is_direct: Some(false),
            },
        ),
        sender,
        state_key: Some(target),
        redacts: None,
        unsigned: None,
    }
}

/// Adds the event by which someone becomes a member, at a given time; whether anything could be
/// stored of it.
fn add_member<S: Storage>(
    state: &mut ServerState<S>,
    room_id: &str,
    name: &str,
    membership: Membership,
    sender: MatrixId,
    target: String,
    now: i64,
) -> (r: Result<bool, ErrorKind>)
    requires
        old(state).wf(),
    ensures
        final(state).config == old(state).config,
        final(state).db.reliable() == old(state).db.reliable(),
        !db_failed(r) ==> final(state).wf(),
        db_failed(r) ==> !old(state).db.reliable(),
        !db_failed(r) ==> makes_member(
            r,
            old(state).db@,
            final(state).db@,
            room_id@,
            member_event(profile_or_empty(old(state).db@, name@), membership, sender@, target@),
            now,
        ),
{
    let profile = match state.db.get_profile(name) {
        Ok(Some(profile)) => profile,
        Ok(None) => UserProfile::default(),
        Err(e) => return Err(e),
    };
    let event = NewEvent {
        event_content: EventContent::Member(
            Member {
                avatar_url: profile.avatar_url,
                displayname: profile.displayname,
                membership,
                is_direct: Some(false),
            },
        ),
        sender,
        state_key: Some(target),
        redacts: None,
        unsigned: None,
    };
    match add_event_at(&mut state.db, room_id, event, &mut state.state_resolver, now) {
        Ok(Some(_)) => Ok(true),
        Ok(None) => Ok(false),
        Err(e) => Err(e),
    }
}

/// Whether the event by which someone becomes a member was stored, or could not be.
pub open spec fn makes_member(
    r: Result<bool, ErrorKind>,
    before: StorageView,
    after: StorageView,
    room: Seq<char>,
    event: NewEventView,
    now: i64,
) -> bool {
    if !before.rooms.contains_key(room) {
        r is Err && r->Err_0@ == ErrorView::RoomNotFound && after == before
    } else {
        let stored = drafted(before.rooms, room, event, now);
        match r {
            Ok(true) => stored is Some && adds(before, after, stored, stored->0.id()),
            Ok(false) => stored is None && after == before,
            Err(_) => false,
        }
    }
}

/// Invites a user to a room at a given time; whether anything could be stored of it.
pub fn invite_at<S: Storage>(
    state: &mut ServerState<S>,
    token: AccessToken,
    room_id: &str,
    req: InviteRequest,
    now: i64,
) -> (r: Result<bool, ErrorKind>)
    requires
        old(state).wf(),
    ensures
        final(state).config == old(state).config,
        final(state).db.reliable() == old(state).db.reliable(),
        !db_failed(r) ==> final(state).wf(),
        db_failed(r) ==> !old(state).db.reliable(),
        !db_failed(r) ==> invites(
            r,
            old(state).db@,
            final(state).db@,
            old(state).config.domain@,
            token@,
            room_id@,
            req.user_id@,
            now,
        ),
{
    let user_id = match state.identify(token.0) {
        Ok((_, user_id)) => user_id,
        Err(e) => return Err(e),
    };
    let invitee = req.user_id;
    let name = invitee.localpart().to_owned();
    add_member(
        state,
        room_id,
        name.as_str(),
        Membership::Invite,
        user_id,
        invitee.clone_inner(),
        now,
    )
}

/// Whether an invitation was stored, or could not be.
pub open spec fn invites(
    r: Result<bool, ErrorKind>,
    before: StorageView,
    after: StorageView,
    domain: Seq<char>,
    token: u128,
    room: Seq<char>,
    invitee: Seq<char>,
    now: i64,
) -> bool {
    match caller_of(before, token) {
        Err(e) => r is Err && r->Err_0@ == e && after == before,
        Ok(name) => makes_member(
            r,
            before,
            after,
            room,
            member_event(
                profile_or_empty(before, localpart_of(invitee)),
                Membership::Invite,
                mxid_of(name, domain),
                invitee,
            ),
            now,
        ),
    }
}

/// Whether a user was let into a room, or could not be.
pub open spec fn joins(
    r: Result<bool, ErrorKind>,
    before: StorageView,
    after: StorageView,
    domain: Seq<char>,
    token: u128,
    room: Seq<char>,
    now: i64,
) -> bool {
    match caller_of(before, token) {
        Err(e) => r is Err && r->Err_0@ == e && after == before,
        Ok(name) => makes_member(
            r,
            before,
            after,
            room,
            member_event(
                profile_or_empty(before, name),
                Membership::Join,
                mxid_of(name, domain),
                mxid_of(name, domain),
            ),
            now,
        ),
    }
}

/// Invites a user to a room; whether anything could be stored of it.
pub fn invite<S: Storage>(
    state: &mut ServerState<S>,
    token: AccessToken,
    room_id: &str,
    req: InviteRequest,
) -> (r: Result<bool, ErrorKind>)
    requires
        old(state).wf(),
    ensures
        final(state).config == old(state).config,
        final(state).db.reliable() == old(state).db.reliable(),
        !db_failed(r) ==> final(state).wf(),
        db_failed(r) ==> !old(state).db.reliable(),
        !db_failed(r) ==> exists|now: i64| #[trigger]
            invites(
                r,
                old(state).db@,
                final(state).db@,
                old(state).config.domain@,
                token@,
                room_id@,
                req.user_id@,
                now,
            ),
{
    let now: i64 = now_millis();
    invite_at(state, token, room_id, req, now)
}

/// Lets a user into a room at a given time; whether anything could be stored of it.
fn join_at<S: Storage>(state: &mut ServerState<S>, token: &AccessToken, room_id: &str, now: i64) -> (r:
    Result<bool, ErrorKind>)
    requires
        old(state).wf(),
    ensures
        final(state).config == old(state).config,
        final(state).db.reliable() == old(state).db.reliable(),
        !db_failed(r) ==> final(state).wf(),
        db_failed(r) ==> !old(state).db.reliable(),
        !db_failed(r) ==> joins(
            r,
            old(state).db@,
            final(state).db@,
            old(state).config.domain@,
            token@,
            room_id@,
            now,
        ),
{
    let (username, user_id) = match state.identify(token.0) {
        Ok(found) => found,
        Err(e) => return Err(e),
    };
    let target = user_id.clone_inner();
    add_member(state, room_id, username.as_str(), Membership::Join, user_id, target, now)
}

/// What is answered to someone who was let into a room: its identifier, or nothing where nothing
/// could be stored.
pub open spec fn join_answer(r: Result<bool, ErrorKind>, room: Seq<char>) -> Result<
    Option<Json>,
    ErrorView,
> {
    match r {
        Ok(true) => Ok(Some(single("room_id"@, Json::Text(room)))),
        Ok(false) => Ok(None),
        Err(e) => Err(e@),
    }
}

/// What an answer that may be missing says.
pub open spec fn answer_view(r: Result<Option<JsonValue>, ErrorKind>) -> Result<
    Option<Json>,
    ErrorView,
> {
    match r {
        Ok(Some(v)) => Ok(Some(v@)),
        Ok(None) => Ok(None),
        Err(e) => Err(e@),
    }
}

/// Lets a user into a room at a given time; `None` where nothing can be stored of it.
pub fn join_by_id_or_alias_at<S: Storage>(
    state: &mut ServerState<S>,
    token: AccessToken,
    room_id_or_alias: &str,
    now: i64,
) -> (r: Result<Option<JsonValue>, ErrorKind>)
    requires
        old(state).wf(),
    ensures
        final(state).config == old(state).config,
        final(state).db.reliable() == old(state).db.reliable(),
        !db_failed(r) ==> final(state).wf(),
        db_failed(r) ==> !old(state).db.reliable(),
        !db_failed(r) ==> exists|done: Result<bool, ErrorKind>|
            answer_view(r) == join_answer(done, room_id_or_alias@) && #[trigger] joins(
                done,
                old(state).db@,
                final(state).db@,
                old(state).config.domain@,
                token@,
                room_id_or_alias@,
                now,
            ),
{
    let done = join_at(state, &token, room_id_or_alias, now);
    match done {
        Ok(true) => {
            let mut answer = JsonValue::object();
            answer.insert("room_id", JsonValue::text(room_id_or_alias));
            assert(answer@->Object_0 =~= single(
                "room_id"@,
                Json::Text(room_id_or_alias@),
            )->Object_0);
            Ok(Some(answer))
        },
        Ok(false) => Ok(None),
        Err(e) => Err(e),
    }
}

/// Lets a user into a room; `None` where nothing can be stored of it.
pub fn join_by_id_or_alias<S: Storage>(
    state: &mut ServerState<S>,
    token: AccessToken,
    room_id_or_alias: &str,
) -> (r: Result<Option<JsonValue>, ErrorKind>)
    requires
        old(state).wf(),
    ensures
        final(state).config == old(state).config,
        final(state).db.reliable() == old(state).db.reliable(),
        !db_failed(r) ==> final(state).wf(),
        db_failed(r) ==> !old(state).db.reliable(),
        !db_failed(r) ==> exists|now: i64, done: Result<bool, ErrorKind>|
            answer_view(r) == join_answer(done, room_id_or_alias@) && #[trigger] joins(
                done,
                old(state).db@,
                final(state).db@,
                old(state).config.domain@,
                token@,
                room_id_or_alias@,
                now,
            ),
{
    let now: i64 = now_millis();
    join_by_id_or_alias_at(state, token, room_id_or_alias, now)
}

} // verus!
