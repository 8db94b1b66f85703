//! What the server keeps, and how it is asked for.
use crate::dict::{distinct_keys, has_key, lemma_map_of_entry, Dict, Duplicate, KeySet};
use crate::error::{is_database_error, ErrorKind, ErrorView};
use crate::events::ephemeral::Typing;
use crate::events::pdu::{StoredPdu, StoredView};
use crate::events::room::{membership_name, single, Membership};
use crate::events::room_version::v4::PduView;
use crate::events::room_version::VersionedPdu;
use crate::events::{json_opt, Event, EventContent, EventView};
use crate::json::{Json, JsonValue};
use crate::outside::{hash_accepts, is_random_uuid, new_uuid};
use crate::text::{copy_opt, same, text_opt, texts};
use crate::util::mxid::MatrixId;
use vstd::prelude::*;
use vstd::utf8::encode_utf8;

pub mod calls;
pub mod laws;
pub mod mem;
pub mod password;
pub mod postgres;
pub mod sled;

verus! {

/// How a user presents themselves.
pub struct UserProfile {
    pub avatar_url: Option<String>,
    pub displayname: Option<String>,
}

/// What a `UserProfile` says.
pub struct ProfileView {
    pub avatar_url: Option<Seq<char>>,
    pub displayname: Option<Seq<char>>,
}

impl View for UserProfile {
    type V = ProfileView;

    open spec fn view(&self) -> ProfileView {
        ProfileView {
            avatar_url: text_opt(self.avatar_url),
            displayname: text_opt(self.displayname),
        }
    }
}

impl Default for UserProfile {
    fn default() -> (p: Self)
        ensures
            p@ == empty_profile(),
    {
        UserProfile { avatar_url: None, displayname: None }
    }
}

/// The profile of a user who has not said anything.
pub open spec fn empty_profile() -> ProfileView {
    ProfileView { avatar_url: None, displayname: None }
}

impl Duplicate for UserProfile {
    fn duplicate(&self) -> (copy: Self) {
        UserProfile {
            avatar_url: copy_opt(&self.avatar_url),
            displayname: copy_opt(&self.displayname),
        }
    }
}

/// What an optional profile says.
pub open spec fn profile_opt(p: Option<UserProfile>) -> Option<ProfileView> {
    match p {
        Some(q) => Some(q@),
        None => None,
    }
}

/// A question for the events of a room.
pub struct EventQuery<'a> {
    pub query_type: QueryType<'a>,
    pub room_id: &'a str,
    /// A list of event senders to include in the result. If the list is empty all senders are
    /// included.
    pub senders: &'a [&'a MatrixId],
    /// A list of event senders to exclude in the result. If the list is empty no senders are
    /// excluded. Exclusion takes priority; if a sender is listed in both `senders` and
    /// `not_senders`, the net result is exclusion.
    pub not_senders: &'a [&'a MatrixId],
    /// A list of event types to include in the result. If the list is empty all types are
    /// included.
    pub types: &'a [&'a str],
    /// A list of event types to exclude in the result. If the list is empty no types are excluded.
    /// Exclusion takes priority; if a type is listed in both `types` and `not_types`, the net
    /// result is exclusion.
    pub not_types: &'a [&'a str],
    /// Only return results whose content fields have identical values to those in here.
    pub contains_json: Option<JsonValue>,
}

/// Which events of a room a question is about.
#[derive(Clone, Copy)]
pub enum QueryType<'a> {
    /// Timeline queries return all events (confusingly, even state events) in a given timeframe.
    Timeline { from: usize, to: Option<usize> },
    /// State queries return all of the most recent state events with unique (type, state_key)
    /// pairs, from a given point in time. This represents the full state of the room at that time.
    State {
        at: Option<usize>,
        /// A list of state keys to include in the result. If the list is empty all keys are
        /// included.
        state_keys: &'a [&'a str],
        /// A list of state keys to exclude in the result. If the list is empty no keys are
        /// excluded. Exclusion takes priority; if a key is listed in both `keys` and `not_keys`,
        /// the net result is exclusion.
        not_state_keys: &'a [&'a str],
    },
}

/// What an `EventQuery` asks.
pub struct QueryView {
    pub query_type: QueryTypeView,
    pub room_id: Seq<char>,
    pub senders: Seq<Seq<char>>,
    pub not_senders: Seq<Seq<char>>,
    pub types: Seq<Seq<char>>,
    pub not_types: Seq<Seq<char>>,
    pub contains_json: Option<Json>,
}

/// What a `QueryType` asks.
pub enum QueryTypeView {
    Timeline { from: usize, to: Option<usize> },
    State {
        at: Option<usize>,
        state_keys: Seq<Seq<char>>,
        not_state_keys: Seq<Seq<char>>,
    },
}

/// The contents of a list of string references.
pub open spec fn str_texts(s: Seq<&str>) -> Seq<Seq<char>> {
    Seq::new(s.len(), |i: int| s[i]@)
}

/// The contents of a list of identifiers.
pub open spec fn id_texts(s: Seq<&MatrixId>) -> Seq<Seq<char>> {
    Seq::new(s.len(), |i: int| s[i]@)
}

impl<'a> View for QueryType<'a> {
    type V = QueryTypeView;

    open spec fn view(&self) -> QueryTypeView {
        match *self {
            QueryType::Timeline { from, to } => QueryTypeView::Timeline { from, to },
            QueryType::State { at, state_keys, not_state_keys } => QueryTypeView::State {
                at,
                state_keys: str_texts(state_keys@),
                not_state_keys: str_texts(not_state_keys@),
            },
        }
    }
}

impl<'a> View for EventQuery<'a> {
    type V = QueryView;

    open spec fn view(&self) -> QueryView {
        QueryView {
            query_type: self.query_type@,
            room_id: self.room_id@,
            senders: id_texts(self.senders@),
            not_senders: id_texts(self.not_senders@),
            types: str_texts(self.types@),
            not_types: str_texts(self.not_types@),
            contains_json: json_opt(self.contains_json),
        }
    }
}

/// Whether a value passes a list of what to include and a list of what to exclude. Exclusion takes
/// priority, and an empty list of what to include lets everything in.
pub open spec fn lets_in(
    included: Seq<Seq<char>>,
    excluded: Seq<Seq<char>>,
    value: Seq<char>,
) -> bool {
    !excluded.contains(value) && (included.len() == 0 || included.contains(value))
}

/// Whether each member of an object stands in a value with the same contents.
pub open spec fn contains_members(value: Json, members: Map<Seq<char>, Json>) -> bool {
    forall|key: Seq<char>| #[trigger]
        members.contains_key(key) ==> value is Object && value->Object_0.contains_key(key)
            && value->Object_0[key] == members[key]
}

impl QueryView {
    /// Whether an event passes the lists of state keys, senders and types.
    pub open spec fn lets_through(self, pdu: PduView) -> bool {
        &&& match self.query_type {
            QueryTypeView::State { state_keys, not_state_keys, .. } => pdu.state_key is Some
                && lets_in(state_keys, not_state_keys, pdu.state_key->0),
            QueryTypeView::Timeline { .. } => true,
        }
        &&& lets_in(self.senders, self.not_senders, pdu.sender)
        &&& lets_in(self.types, self.not_types, pdu.content.label())
    }

    /// Whether an event is one that is asked for, wherever in the room it stands.
    pub open spec fn matches(self, pdu: PduView) -> bool {
        &&& self.lets_through(pdu)
        &&& match self.contains_json {
            Some(json) => contains_members(pdu.content.json(), json->Object_0),
            None => true,
        }
    }

    /// A question is well put where the contents that are asked for are an object.
    pub open spec fn well_put(self) -> bool {
        self.contains_json is Some ==> self.contains_json->0 is Object
    }
}

fn str_in(list: &[&str], wanted: &str) -> (r: bool)
    ensures
        r == str_texts(list@).contains(wanted@),
{
    for i in 0..list.len()
        invariant
            forall|j: int| 0 <= j < i ==> (#[trigger] str_texts(list@)[j]) != wanted@,
    {
        if same(list[i], wanted) {
            assert(str_texts(list@)[i as int] == wanted@);
            return true;
        }
    }
    false
}

fn id_in(list: &[&MatrixId], wanted: &MatrixId) -> (r: bool)
    ensures
        r == id_texts(list@).contains(wanted@),
{
    for i in 0..list.len()
        invariant
            forall|j: int| 0 <= j < i ==> (#[trigger] id_texts(list@)[j]) != wanted@,
    {
        if same(list[i].as_str(), wanted.as_str()) {
            assert(id_texts(list@)[i as int] == wanted@);
            return true;
        }
    }
    false
}

impl<'a> EventQuery<'a> {
    /// Whether an event is one that is asked for. An event's place in storage is not part of it, so
    /// it is taken to lie within the bounds of the question.
    pub fn matches(&self, pdu: &VersionedPdu) -> (r: bool)
        requires
            self@.lets_through(pdu@) ==> self@.well_put(),
        ensures
            r == self@.matches(pdu@),
    {
        match self.query_type {
            QueryType::State { state_keys, not_state_keys, .. } => {
                match pdu.state_key() {
                    Some(k) => {
                        if str_in(not_state_keys, k) {
                            return false;
                        }
                        if state_keys.len() > 0 && !str_in(state_keys, k) {
                            return false;
                        }
                    },
                    None => return false,
                }
            },
            QueryType::Timeline { .. } => {},
        }
        if id_in(self.not_senders, pdu.sender()) {
            return false;
        }
        if self.senders.len() > 0 && !id_in(self.senders, pdu.sender()) {
            return false;
        }
        if str_in(self.not_types, pdu.event_content().get_type()) {
            return false;
        }
        if self.types.len() > 0 && !str_in(self.types, pdu.event_content().get_type()) {
            return false;
        }
        match &self.contains_json {
            Some(value) => {
                let keys = value.keys().unwrap();
                let content = pdu.event_content().content_as_json();
                let ghost members = value@->Object_0;
                let mut i: usize = 0;
                while i < keys.len()
                    invariant
                        i <= keys@.len(),
                        value@ is Object,
                        members == value@->Object_0,
                        texts(keys@).to_set() == members.dom(),
                        content@ == pdu@.content.json(),
                        json_opt(self.contains_json) == Some(value@),
                        forall|j: int|
                            0 <= j < i ==> content@ is Object && content@->Object_0.contains_key(
                                #[trigger] texts(keys@)[j],
                            ) && content@->Object_0[texts(keys@)[j]] == members[texts(keys@)[j]],
                    decreases keys@.len() - i,
                {
                    let key = keys[i].as_str();
                    assert(texts(keys@)[i as int] == key@);
                    assert(texts(keys@).contains(key@));
                    assert(texts(keys@).to_set().contains(key@));
                    let wanted = value.get(key).unwrap();
                    let ok = match content.get(key) {
                        Some(found) => found.same(&wanted),
                        None => false,
                    };
                    if !ok {
                        assert(members.contains_key(key@));
                        return false;
                    }
                    i += 1;
                }
                assert forall|key: Seq<char>| #[trigger]
                    members.contains_key(key) implies content@ is Object
                    && content@->Object_0.contains_key(key) && content@->Object_0[key]
                    == members[key] by {
                    assert(texts(keys@).to_set().contains(key));
                    let j = choose|j: int| 0 <= j < texts(keys@).len() && texts(keys@)[j] == key;
                    assert(texts(keys@)[j] == key);
                }
            },
            None => {},
        }
        true
    }
}

impl<'a> QueryType<'a> {
    pub fn is_timeline(&self) -> (r: bool)
        ensures
            r == (self@ is Timeline),
    {
        match self {
            QueryType::Timeline { .. } => true,
            _ => false,
        }
    }

    pub fn is_state(&self) -> (r: bool)
        ensures
            r == (self@ is State),
    {
        match self {
            QueryType::State { .. } => true,
            _ => false,
        }
    }
}

/// How far a user has read.
pub struct Batch {
    /// Indices into the event storage of the rooms that the user is in.
    pub rooms: Dict<String, usize>,
    /// A set of rooms to which the user has been invited, where they are already aware of this.
    pub invites: KeySet<String>,
}

/// What a `Batch` says.
#[verifier::ext_equal]
pub struct BatchView {
    pub rooms: Map<Seq<char>, usize>,
    pub invites: Set<Seq<char>>,
}

impl View for Batch {
    type V = BatchView;

    open spec fn view(&self) -> BatchView {
        BatchView { rooms: self.rooms@, invites: self.invites@ }
    }
}

impl Default for Batch {
    fn default() -> (b: Self)
        ensures
            b@ == empty_batch(),
    {
        Batch { rooms: Dict::new(), invites: KeySet::new() }
    }
}

/// The batch of a user who has not read anything.
pub open spec fn empty_batch() -> BatchView {
    BatchView { rooms: Map::empty(), invites: Set::empty() }
}

impl Duplicate for Batch {
    fn duplicate(&self) -> (copy: Self) {
        Batch { rooms: self.rooms.duplicate(), invites: self.invites.duplicate() }
    }
}

/// What is kept of a user.
pub struct UserView {
    pub password_hash: Seq<char>,
    pub profile: ProfileView,
    pub account_data: Map<Seq<char>, Json>,
}

/// What is kept of a room.
#[verifier::ext_equal]
pub struct RoomView {
    pub events: Seq<StoredView>,
    pub ephemeral: Map<Seq<char>, Json>,
    /// Until when each user counts as typing.
    pub typing: Map<Seq<char>, u64>,
}

/// What the server keeps.
#[verifier::ext_equal]
pub struct StorageView {
    pub users: Map<Seq<char>, UserView>,
    pub tokens: Map<u128, Seq<char>>,
    pub txns: Set<(u128, Seq<char>)>,
    pub batches: Map<Seq<char>, BatchView>,
    pub rooms: Map<Seq<char>, RoomView>,
}

/// A room in which nothing has happened.
pub open spec fn new_room() -> RoomView {
    RoomView { events: Seq::empty(), ephemeral: Map::empty(), typing: Map::empty() }
}

/// The contents of a list of stored events.
pub open spec fn stored_views(s: Seq<StoredPdu>) -> Seq<StoredView> {
    Seq::new(s.len(), |i: int| s[i]@)
}

/// The contents of a list of events.
pub open spec fn event_views(s: Seq<Event>) -> Seq<EventView> {
    Seq::new(s.len(), |i: int| s[i]@)
}

/// The events as clients see them.
pub open spec fn client_events(s: Seq<StoredView>) -> Seq<EventView> {
    Seq::new(s.len(), |i: int| s[i].pdu.client_format())
}

/// The first event with an identifier.
pub open spec fn find_in(events: Seq<StoredView>, id: Seq<char>) -> Option<StoredView>
    decreases events.len(),
{
    if events.len() == 0 {
        None
    } else if events[0].id() == id {
        Some(events[0])
    } else {
        find_in(events.drop_first(), id)
    }
}

/// The event with an identifier in a room.
pub open spec fn find_pdu(
    rooms: Map<Seq<char>, RoomView>,
    room_id: Seq<char>,
    id: Seq<char>,
) -> Option<StoredView> {
    if rooms.contains_key(room_id) {
        find_in(rooms[room_id].events, id)
    } else {
        None
    }
}

/// Whether an event is the state event of a type with a key.
pub open spec fn is_state_of(e: StoredView, ty: Seq<char>, key: Seq<char>) -> bool {
    e.pdu.state_key == Some(key) && e.pdu.content.label() == ty
}

/// The events other than the state events of a type with a key.
pub open spec fn without_state(
    events: Seq<StoredView>,
    ty: Seq<char>,
    key: Seq<char>,
) -> Seq<StoredView>
    decreases events.len(),
{
    if events.len() == 0 {
        Seq::empty()
    } else {
        let before = without_state(events.drop_last(), ty, key);
        if is_state_of(events.last(), ty, key) {
            before
        } else {
            before.push(events.last())
        }
    }
}

/// The most recent state events with unique pairs of type and key: each state event takes the place
/// of an earlier one.
pub open spec fn current_state(events: Seq<StoredView>) -> Seq<StoredView>
    decreases events.len(),
{
    if events.len() == 0 {
        Seq::empty()
    } else {
        let before = current_state(events.drop_last());
        let e = events.last();
        match e.pdu.state_key {
            Some(key) => without_state(before, e.pdu.content.label(), key).push(e),
            None => before,
        }
    }
}

/// The most recent state event of a type with a key.
pub open spec fn latest_state(
    events: Seq<StoredView>,
    ty: Seq<char>,
    key: Seq<char>,
) -> Option<StoredView>
    decreases events.len(),
{
    if events.len() == 0 {
        None
    } else if is_state_of(events.last(), ty, key) {
        Some(events.last())
    } else {
        latest_state(events.drop_last(), ty, key)
    }
}

/// The events that a question asks for, out of some.
pub open spec fn matching(events: Seq<StoredView>, query: QueryView) -> Seq<StoredView>
    decreases events.len(),
{
    if events.len() == 0 {
        Seq::empty()
    } else {
        let before = matching(events.drop_last(), query);
        if query.matches(events.last().pdu) {
            before.push(events.last())
        } else {
            before
        }
    }
}

/// The position up to which a question looks: the last one unless it names another.
pub open spec fn query_end(events: Seq<StoredView>, query: QueryView) -> int {
    let given = match query.query_type {
        QueryTypeView::Timeline { to, .. } => to,
        QueryTypeView::State { at, .. } => at,
    };
    match given {
        Some(n) => n as int,
        None => if events.len() == 0 {
            0
        } else {
            events.len() - 1
        },
    }
}

/// The events among which a question looks: those between its bounds, or the state at one.
pub open spec fn searched(events: Seq<StoredView>, query: QueryView) -> Seq<StoredView> {
    let end = query_end(events, query);
    if end >= events.len() {
        Seq::empty()
    } else {
        match query.query_type {
            QueryTypeView::Timeline { from, .. } => if from <= end {
                events.subrange(from as int, end + 1)
            } else {
                Seq::empty()
            },
            QueryTypeView::State { .. } => current_state(events.take(end + 1)),
        }
    }
}

/// The answer to a question.
pub open spec fn query_answer(events: Seq<StoredView>, query: QueryView) -> Seq<StoredView> {
    matching(searched(events, query), query)
}

/// Whether a question can be asked of some events: it is well put if the contents of any of them are
/// looked at.
pub open spec fn answerable(events: Seq<StoredView>, query: QueryView) -> bool {
    forall|i: int|
        0 <= i < events.len() && query.lets_through((#[trigger] events[i]).pdu) ==> query.well_put()
}

/// The question for the current state of a room.
pub open spec fn full_state_query(room_id: Seq<char>) -> QueryView {
    QueryView {
        query_type: QueryTypeView::State {
            at: None,
            state_keys: Seq::empty(),
            not_state_keys: Seq::empty(),
        },
        room_id,
        senders: Seq::empty(),
        not_senders: Seq::empty(),
        types: Seq::empty(),
        not_types: Seq::empty(),
        contains_json: None,
    }
}

/// The question for the current state event of a type with a key.
pub open spec fn state_event_query(room_id: Seq<char>, ty: Seq<char>, key: Seq<char>) -> QueryView {
    QueryView {
        query_type: QueryTypeView::State {
            at: None,
            state_keys: seq![key],
            not_state_keys: Seq::empty(),
        },
        room_id,
        senders: Seq::empty(),
        not_senders: Seq::empty(),
        types: seq![ty],
        not_types: Seq::empty(),
        contains_json: None,
    }
}

/// Whether an event makes some user a member in a given way.
pub open spec fn is_member_event(e: StoredView, membership: Membership) -> bool {
    e.pdu.content.label() == "m.room.member"@ && contains_members(
        e.pdu.content.json(),
        single("membership"@, Json::Text(membership_name(membership)))->Object_0,
    )
}

/// How many of the events make some user a member in a given way.
pub open spec fn count_members(events: Seq<StoredView>, membership: Membership) -> nat
    decreases events.len(),
{
    if events.len() == 0 {
        0
    } else {
        count_members(events.drop_last(), membership) + if is_member_event(
            events.last(),
            membership,
        ) {
            1nat
        } else {
            0nat
        }
    }
}

/// How a user stands to a room.
pub open spec fn membership_of(events: Seq<StoredView>, user: Seq<char>) -> Option<Membership> {
    match latest_state(events, "m.room.member"@, user) {
        Some(e) => Some(e.pdu.content->Member_0.membership),
        None => None,
    }
}

/// The rooms to which a user stands in some way, and how.
pub open spec fn memberships_in(rooms: Map<Seq<char>, RoomView>, user: Seq<char>) -> Map<
    Seq<char>,
    Membership,
> {
    Map::new(
        |room: Seq<char>|
            rooms.contains_key(room) && membership_of(rooms[room].events, user) is Some,
        |room: Seq<char>| membership_of(rooms[room].events, user)->0,
    )
}

/// The greatest depth of the events.
pub open spec fn max_depth(events: Seq<StoredView>) -> i64
    decreases events.len(),
{
    if events.len() == 0 {
        0
    } else if events.len() == 1 {
        events[0].pdu.depth
    } else {
        let before = max_depth(events.drop_last());
        if events.last().pdu.depth > before {
            events.last().pdu.depth
        } else {
            before
        }
    }
}

/// The identifiers of the events at a depth.
pub open spec fn ids_at_depth(events: Seq<StoredView>, depth: i64) -> Seq<Seq<char>>
    decreases events.len(),
{
    if events.len() == 0 {
        Seq::empty()
    } else {
        let before = ids_at_depth(events.drop_last(), depth);
        if events.last().pdu.depth == depth {
            before.push(events.last().id())
        } else {
            before
        }
    }
}

/// The rooms after one more event: a create event starts its room afresh, and every other event
/// needs its room to be there.
pub open spec fn add_one(rooms: Map<Seq<char>, RoomView>, e: StoredView) -> Option<
    Map<Seq<char>, RoomView>,
> {
    let room_id = e.pdu.room_id;
    let base = if e.pdu.content is Create {
        rooms.insert(room_id, new_room())
    } else {
        rooms
    };
    if base.contains_key(room_id) {
        Some(
            base.insert(
                room_id,
                RoomView { events: base[room_id].events.push(e), ..base[room_id] },
            ),
        )
    } else {
        None
    }
}

/// The rooms after one more event in a room that is there.
pub open spec fn appended(rooms: Map<Seq<char>, RoomView>, e: StoredView) -> Map<
    Seq<char>,
    RoomView,
> {
    let room = rooms[e.pdu.room_id];
    rooms.insert(e.pdu.room_id, RoomView { events: room.events.push(e), ..room })
}

/// The rooms after some more events.
pub open spec fn add_all(
    rooms: Map<Seq<char>, RoomView>,
    events: Seq<StoredView>,
) -> Option<Map<Seq<char>, RoomView>>
    decreases events.len(),
{
    if events.len() == 0 {
        Some(rooms)
    } else {
        match add_all(rooms, events.drop_last()) {
            Some(before) => add_one(before, events.last()),
            None => None,
        }
    }
}

/// Whether a result is an error of the database itself.
pub open spec fn db_failed<T>(r: Result<T, ErrorKind>) -> bool {
    r is Err && is_database_error(r->Err_0@)
}

/// The tokens of users other than the one a token belongs to.
pub open spec fn without_tokens_of(tokens: Map<u128, Seq<char>>, token: u128) -> Map<
    u128,
    Seq<char>,
> {
    if tokens.contains_key(token) {
        Map::new(
            |t: u128| tokens.contains_key(t) && tokens[t] != tokens[token],
            |t: u128| tokens[t],
        )
    } else {
        tokens
    }
}

/// The point in time after a number of milliseconds, within what a clock can show.
pub open spec fn deadline(now: u64, timeout: u32) -> u64 {
    if now + timeout <= u64::MAX {
        (now + timeout) as u64
    } else {
        u64::MAX
    }
}

/// A new user with a password hash.
pub open spec fn new_user(password_hash: Seq<char>) -> UserView {
    UserView { password_hash, profile: empty_profile(), account_data: Map::empty() }
}

/// The current state event of a type with a key is the most recent one.
pub proof fn lemma_state_event(events: Seq<StoredView>, room: Seq<char>, ty: Seq<char>, key: Seq<char>)
    ensures
        matching(current_state(events), state_event_query(room, ty, key)) == (match latest_state(
            events,
            ty,
            key,
        ) {
            Some(e) => seq![e],
            None => Seq::<StoredView>::empty(),
        }),
    decreases events.len(),
{
    let query = state_event_query(room, ty, key);
    if events.len() > 0 {
        let before = current_state(events.drop_last());
        let e = events.last();
        lemma_state_event(events.drop_last(), room, ty, key);
        lemma_query_is_state_of(e, room, ty, key);
        match e.pdu.state_key {
            Some(k) => {
                let rest = without_state(before, e.pdu.content.label(), k);
                assert(rest.push(e).drop_last() =~= rest);
                if is_state_of(e, ty, key) {
                    lemma_without_matching(before, room, ty, key);
                } else {
                    lemma_without_other(before, room, ty, key, e.pdu.content.label(), k);
                }
            },
            None => {},
        }
    }
}

proof fn lemma_query_is_state_of(e: StoredView, room: Seq<char>, ty: Seq<char>, key: Seq<char>)
    ensures
        state_event_query(room, ty, key).matches(e.pdu) == is_state_of(e, ty, key),
{
    assert(seq![key].contains(key)) by {
        assert(seq![key][0] == key);
    }
    assert(seq![ty].contains(ty)) by {
        assert(seq![ty][0] == ty);
    }
    if e.pdu.state_key is Some && seq![key].contains(e.pdu.state_key->0) {
        assert(e.pdu.state_key->0 == key);
    }
    if seq![ty].contains(e.pdu.content.label()) {
        assert(e.pdu.content.label() == ty);
    }
}

proof fn lemma_without_matching(
    events: Seq<StoredView>,
    room: Seq<char>,
    ty: Seq<char>,
    key: Seq<char>,
)
    ensures
        matching(without_state(events, ty, key), state_event_query(room, ty, key)) == Seq::<
            StoredView,
        >::empty(),
    decreases events.len(),
{
    if events.len() > 0 {
        lemma_without_matching(events.drop_last(), room, ty, key);
        lemma_query_is_state_of(events.last(), room, ty, key);
        let before = without_state(events.drop_last(), ty, key);
        assert(before.push(events.last()).drop_last() =~= before);
    }
}

proof fn lemma_without_other(
    events: Seq<StoredView>,
    room: Seq<char>,
    ty: Seq<char>,
    key: Seq<char>,
    other_ty: Seq<char>,
    other_key: Seq<char>,
)
    requires
        ty != other_ty || key != other_key,
    ensures
        matching(without_state(events, other_ty, other_key), state_event_query(room, ty, key))
            == matching(events, state_event_query(room, ty, key)),
    decreases events.len(),
{
    if events.len() > 0 {
        lemma_without_other(events.drop_last(), room, ty, key, other_ty, other_key);
        lemma_query_is_state_of(events.last(), room, ty, key);
        let before = without_state(events.drop_last(), other_ty, other_key);
        assert(before.push(events.last()).drop_last() =~= before);
    }
}

/// All of the current state matches the question for it.
pub proof fn lemma_full_state(events: Seq<StoredView>, room: Seq<char>)
    ensures
        matching(current_state(events), full_state_query(room)) == current_state(events),
{
    lemma_current_is_state(events);
    lemma_match_state(current_state(events), room);
}

/// The current state is made of state events.
pub proof fn lemma_current_is_state(events: Seq<StoredView>)
    ensures
        forall|i: int|
            0 <= i < current_state(events).len() ==> (#[trigger] current_state(
                events,
            )[i]).pdu.state_key is Some,
    decreases events.len(),
{
    if events.len() > 0 {
        lemma_current_is_state(events.drop_last());
        let before = current_state(events.drop_last());
        let e = events.last();
        if e.pdu.state_key is Some {
            lemma_without_is_state(before, e.pdu.content.label(), e.pdu.state_key->0);
        }
    }
}

proof fn lemma_without_is_state(events: Seq<StoredView>, ty: Seq<char>, key: Seq<char>)
    requires
        forall|i: int| 0 <= i < events.len() ==> (#[trigger] events[i]).pdu.state_key is Some,
    ensures
        forall|i: int|
            0 <= i < without_state(events, ty, key).len() ==> (#[trigger] without_state(
                events,
                ty,
                key,
            )[i]).pdu.state_key is Some,
    decreases events.len(),
{
    if events.len() > 0 {
        lemma_without_is_state(events.drop_last(), ty, key);
        assert(events[events.len() - 1].pdu.state_key is Some);
    }
}

proof fn lemma_match_state(events: Seq<StoredView>, room: Seq<char>)
    requires
        forall|i: int| 0 <= i < events.len() ==> (#[trigger] events[i]).pdu.state_key is Some,
    ensures
        matching(events, full_state_query(room)) == events,
    decreases events.len(),
{
    if events.len() > 0 {
        lemma_match_state(events.drop_last(), room);
        assert(events[events.len() - 1].pdu.state_key is Some);
        assert(events.drop_last().push(events.last()) =~= events);
    }
}

/// The question for users who are members in a given way counts them.
pub proof fn lemma_count_members(
    events: Seq<StoredView>,
    room: Seq<char>,
    membership: Membership,
)
    requires
        forall|i: int| 0 <= i < events.len() ==> (#[trigger] events[i]).pdu.state_key is Some,
    ensures
        matching(events, members_query(room, membership)).len() == count_members(
            events,
            membership,
        ),
    decreases events.len(),
{
    if events.len() > 0 {
        lemma_count_members(events.drop_last(), room, membership);
        let e = events[events.len() - 1];
        assert(e.pdu.state_key is Some);
        let ty = seq!["m.room.member"@];
        assert(ty[0] == "m.room.member"@);
        if ty.contains(e.pdu.content.label()) {
            assert(e.pdu.content.label() == "m.room.member"@);
        }
        assert(members_query(room, membership).matches(e.pdu) == is_member_event(e, membership));
    }
}

/// The question for users who are members in a given way.
pub open spec fn members_query(room_id: Seq<char>, membership: Membership) -> QueryView {
    QueryView {
        query_type: QueryTypeView::State {
            at: None,
            state_keys: Seq::empty(),
            not_state_keys: Seq::empty(),
        },
        room_id,
        senders: Seq::empty(),
        not_senders: Seq::empty(),
        types: seq!["m.room.member"@],
        not_types: Seq::empty(),
        contains_json: Some(
            single("membership"@, Json::Text(membership_name(membership))),
        ),
    }
}

/// The users whose time to be shown as typing has not run out.
pub open spec fn still_typing(typing: Map<Seq<char>, u64>, now: u64) -> Set<Seq<char>> {
    Set::new(|u: Seq<char>| typing.contains_key(u) && typing[u] > now)
}

/// The users whose time to be shown as typing has run out.
pub open spec fn done_typing(typing: Map<Seq<char>, u64>, now: u64) -> Set<Seq<char>> {
    Set::new(|u: Seq<char>| typing.contains_key(u) && typing[u] < now)
}

/// Whether the time of a user has run out, or has not.
pub open spec fn counts_as(until: u64, now: u64, done: bool) -> bool {
    if done {
        until < now
    } else {
        until > now
    }
}

/// The users whose time to be shown as typing has run out, or has not.
pub fn list_typing(typing: &Dict<MatrixId, u64>, now: u64, done: bool) -> (t: Typing)
    ensures
        t@ == (if done {
            done_typing(typing@, now)
        } else {
            still_typing(typing@, now)
        }),
{
    let mut t = Typing::default();
    let ghost listing = typing.listing();
    let n: usize = typing.len();
    for i in 0..n
        invariant
            n == listing.len(),
            listing == typing.listing(),
            distinct_keys(listing),
            forall|u: Seq<char>| #[trigger]
                t@.contains(u) <==> exists|j: int|
                    0 <= j < i && (#[trigger] listing[j]).0 == u && counts_as(listing[j].1, now, done),
    {
        let ghost before = t@;
        let e = typing.entry(i);
        if (done && *e.1 < now) || (!done && *e.1 > now) {
            let _new = t.user_ids.insert(e.0.duplicate());
        }
        proof {
            assert forall|u: Seq<char>| #[trigger] t@.contains(u) <==> exists|j: int|
                0 <= j < i + 1 && (#[trigger] listing[j]).0 == u && counts_as(listing[j].1, now, done) by {
                assert(t@.contains(u) <==> before.contains(u) || (u == listing[i as int].0
                    && counts_as(listing[i as int].1, now, done)));
            }
        }
    }
    proof {
        let wanted = if done {
            done_typing(typing@, now)
        } else {
            still_typing(typing@, now)
        };
        assert forall|u: Seq<char>| t@.contains(u) <==> wanted.contains(u) by {
            if t@.contains(u) {
                let j = choose|j: int|
                    0 <= j < n && (#[trigger] listing[j]).0 == u && counts_as(listing[j].1, now, done);
                lemma_map_of_entry(listing, j);
            }
            if typing@.contains_key(u) {
                assert(has_key(listing, u));
                let j = choose|j: int| 0 <= j < listing.len() && (#[trigger] listing[j]).0 == u;
                lemma_map_of_entry(listing, j);
            }
        }
        assert(t@ =~= wanted);
    }
    t
}

/// An access token that is left to chance.
pub fn draw_token() -> (token: u128)
    ensures
        is_random_uuid(token),
{
    new_uuid()
}

/// A store for what the server keeps.
///
/// A store may fail, with an error of the database, only where it is not reliable. After such a
/// failure nothing is said of what it holds.
pub trait Storage: Sized {
    /// What is kept. A store that leaves this out says nothing of it.
    open spec fn view(&self) -> StorageView {
        arbitrary()
    }

    /// Whether the store never fails.
    open spec fn reliable(&self) -> bool {
        false
    }

    /// The users that a listing of all ephemeral events names under `m.typing`. Stores differ here: some
    /// name those whose time has not run out, and the store in memory names those whose time has.
    open spec fn listed_typing(typing: Map<Seq<char>, u64>, now: u64) -> Set<Seq<char>> {
        still_typing(typing, now)
    }

    /// The users that a question for `m.typing` alone names, if it is answered at all: those whose time
    /// has not run out.
    open spec fn asked_typing(typing: Map<Seq<char>, u64>, now: u64) -> Option<Set<Seq<char>>> {
        if still_typing(typing, now) == Set::<Seq<char>>::empty() {
            None
        } else {
            Some(still_typing(typing, now))
        }
    }

    /// Adds a user with a password.
    fn create_user(&mut self, username: &str, password: &str) -> (r: Result<(), ErrorKind>)
        ensures
            final(self).reliable() == old(self).reliable(),
            db_failed(r) ==> !old(self).reliable(),
            r is Ok ==> !old(self)@.users.contains_key(username@) && exists|hash: Seq<char>|
                #![auto]
                hash_accepts(hash, encode_utf8(password@)) == Some(true) && final(self)@ == (
                StorageView {
                    users: old(self)@.users.insert(username@, new_user(hash)),
                    ..old(self)@
                }),
            r is Err && !db_failed(r) ==> final(self)@ == old(self)@ && (
            if old(self)@.users.contains_key(username@) {
                r->Err_0@ == ErrorView::UsernameTaken
            } else {
                r->Err_0@ is PasswordError
            }),
            r is Err && !db_failed(r) && !old(self)@.users.contains_key(username@)
                ==> encode_utf8(password@).len() > u32::MAX,
    ;

    /// Whether a user has a password.
    fn verify_password(&self, username: &str, password: &str) -> (r: Result<bool, ErrorKind>)
        ensures
            match r {
                Ok(b) => b == (self@.users.contains_key(username@) && hash_accepts(
                    self@.users[username@].password_hash,
                    encode_utf8(password@),
                ) == Some(true)),
                Err(_) => db_failed(r) && !self.reliable(),
            },
    ;

    /// Makes an access token for a user.
    fn create_access_token(&mut self, username: &str, device_id: &str) -> (r: Result<
        u128,
        ErrorKind,
    >)
        ensures
            final(self).reliable() == old(self).reliable(),
            match r {
                Ok(token) => is_random_uuid(token) && old(self)@.users.contains_key(username@)
                    && final(self)@ == (
                StorageView {
                    tokens: old(self)@.tokens.insert(token, username@),
                    ..old(self)@
                }),
                Err(e) => if db_failed(r) {
                    !old(self).reliable()
                } else {
                    e@ == ErrorView::UserNotFound && !old(self)@.users.contains_key(username@)
                        && final(self)@ == old(self)@
                },
            },
    ;

    fn delete_access_token(&mut self, token: u128) -> (r: Result<(), ErrorKind>)
        ensures
            final(self).reliable() == old(self).reliable(),
            match r {
                Ok(_) => final(self)@ == (StorageView {
                    tokens: old(self)@.tokens.remove(token),
                    ..old(self)@
                }),
                Err(_) => db_failed(r) && !old(self).reliable(),
            },
    ;

    /// Deletes all access tokens associated with the same user as this one
    fn delete_all_access_tokens(&mut self, token: u128) -> (r: Result<(), ErrorKind>)
        ensures
            final(self).reliable() == old(self).reliable(),
            match r {
                Ok(_) => final(self)@ == (StorageView {
                    tokens: without_tokens_of(old(self)@.tokens, token),
                    ..old(self)@
                }),
                Err(_) => db_failed(r) && !old(self).reliable(),
            },
    ;

    /// Returns the username for which this token is valid, if any
    fn try_auth(&self, token: u128) -> (r: Result<Option<String>, ErrorKind>)
        ensures
            match r {
                Ok(name) => text_opt(name) == (if self@.tokens.contains_key(token) {
                    Some(self@.tokens[token])
                } else {
                    None
                }),
                Err(_) => db_failed(r) && !self.reliable(),
            },
    ;

    /// Records a transaction ID into the given access token and returns whether it is new
    /// (unique).
    fn record_txn(&mut self, token: u128, txn_id: String) -> (r: Result<bool, ErrorKind>)
        ensures
            final(self).reliable() == old(self).reliable(),
            match r {
                Ok(is_new) => is_new == !old(self)@.txns.contains((token, txn_id@)) && final(self)@
                    == (StorageView {
                    txns: old(self)@.txns.insert((token, txn_id@)),
                    ..old(self)@
                }),
                Err(_) => db_failed(r) && !old(self).reliable(),
            },
    ;

    /// Returns the given user's avatar URL and display name, if present
    fn get_profile(&self, username: &str) -> (r: Result<Option<UserProfile>, ErrorKind>)
        ensures
            match r {
                Ok(p) => profile_opt(p) == (if self@.users.contains_key(username@) {
                    Some(self@.users[username@].profile)
                } else {
                    None
                }),
                Err(_) => db_failed(r) && !self.reliable(),
            },
    ;

    fn set_avatar_url(&mut self, username: &str, avatar_url: &str) -> (r: Result<(), ErrorKind>)
        ensures
            final(self).reliable() == old(self).reliable(),
            match r {
                Ok(_) => old(self)@.users.contains_key(username@) && final(self)@
                    == with_profile(
                    old(self)@,
                    username@,
                    ProfileView {
                        avatar_url: Some(avatar_url@),
                        ..old(self)@.users[username@].profile
                    },
                ),
                Err(e) => if db_failed(r) {
                    !old(self).reliable()
                } else {
                    e@ == ErrorView::UserNotFound && !old(self)@.users.contains_key(username@)
                        && final(self)@ == old(self)@
                },
            },
    ;

    fn set_display_name(&mut self, username: &str, display_name: &str) -> (r: Result<
        (),
        ErrorKind,
    >)
        ensures
            final(self).reliable() == old(self).reliable(),
            match r {
                Ok(_) => old(self)@.users.contains_key(username@) && final(self)@
                    == with_profile(
                    old(self)@,
                    username@,
                    ProfileView {
                        displayname: Some(display_name@),
                        ..old(self)@.users[username@].profile
                    },
                ),
                Err(e) => if db_failed(r) {
                    !old(self).reliable()
                } else {
                    e@ == ErrorView::UserNotFound && !old(self)@.users.contains_key(username@)
                        && final(self)@ == old(self)@
                },
            },
    ;

    /// Adds events in order, up to the first whose room is not there.
    fn add_pdus(&mut self, pdus: &Vec<StoredPdu>) -> (r: Result<(), ErrorKind>)
        ensures
            final(self).reliable() == old(self).reliable(),
            match r {
                Ok(_) => add_all(old(self)@.rooms, stored_views(pdus@)) is Some && final(self)@ == (
                StorageView {
                    rooms: add_all(old(self)@.rooms, stored_views(pdus@))->0,
                    ..old(self)@
                }),
                Err(e) => if db_failed(r) {
                    !old(self).reliable()
                } else {
                    e@ == ErrorView::RoomNotFound && exists|n: int|
                        0 <= n < pdus@.len() && (#[trigger] add_all(
                            old(self)@.rooms,
                            stored_views(pdus@).take(n),
                        )) is Some && add_all(
                            old(self)@.rooms,
                            stored_views(pdus@).take(n + 1),
                        ) is None && final(self)@ == (StorageView {
                            rooms: add_all(old(self)@.rooms, stored_views(pdus@).take(n))->0,
                            ..old(self)@
                        })
                },
            },
    ;

    /// Adds an event to a room that is there, whatever its type.
    fn append_pdu(&mut self, pdu: &StoredPdu) -> (r: Result<(), ErrorKind>)
        ensures
            final(self).reliable() == old(self).reliable(),
            match r {
                Ok(_) => old(self)@.rooms.contains_key(pdu@.pdu.room_id) && final(self)@ == (
                StorageView { rooms: appended(old(self)@.rooms, pdu@), ..old(self)@ }),
                Err(e) => if db_failed(r) {
                    !old(self).reliable()
                } else {
                    e@ == ErrorView::RoomNotFound && !old(self)@.rooms.contains_key(
                        pdu@.pdu.room_id,
                    ) && final(self)@ == old(self)@
                },
            },
    ;

    /// The identifiers of the deepest events of a room, and their depth.
    fn get_prev_events(&self, room_id: &str) -> (r: Result<(Vec<String>, i64), ErrorKind>)
        ensures
            match r {
                Ok((ids, depth)) => self@.rooms.contains_key(room_id@) && depth == max_depth(
                    self@.rooms[room_id@].events,
                ) && texts(ids@) == ids_at_depth(self@.rooms[room_id@].events, depth),
                Err(e) => if db_failed(r) {
                    !self.reliable()
                } else {
                    e@ == ErrorView::RoomNotFound && !self@.rooms.contains_key(room_id@)
                },
            },
    ;

    /// Answers a question for the events of a room, with the position up to which it looked.
    fn query_pdus(&self, query: &EventQuery) -> (r: Result<(Vec<StoredPdu>, usize), ErrorKind>)
        requires
            self@.rooms.contains_key(query@.room_id) ==> answerable(
                searched(self@.rooms[query@.room_id].events, query@),
                query@,
            ),
        ensures
            match r {
                Ok((pdus, end)) => self@.rooms.contains_key(query@.room_id) && stored_views(pdus@)
                    == query_answer(self@.rooms[query@.room_id].events, query@) && end == query_end(
                    self@.rooms[query@.room_id].events,
                    query@,
                ),
                Err(e) => if db_failed(r) {
                    !self.reliable()
                } else {
                    e@ == ErrorView::RoomNotFound && !self@.rooms.contains_key(query@.room_id)
                },
            },
    ;

    /// The rooms that there are.
    fn get_rooms(&self) -> (r: Result<Vec<String>, ErrorKind>)
        ensures
            match r {
                Ok(ids) => texts(ids@).no_duplicates() && texts(ids@).to_set() == self@.rooms.dom(),
                Err(_) => db_failed(r) && !self.reliable(),
            },
    ;

    /// The event with an identifier in a room.
    fn get_pdu(&self, room_id: &str, event_id: &str) -> (r: Result<Option<StoredPdu>, ErrorKind>)
        ensures
            match r {
                Ok(Some(pdu)) => find_pdu(self@.rooms, room_id@, event_id@) == Some(pdu@),
                Ok(None) => find_pdu(self@.rooms, room_id@, event_id@) is None,
                Err(_) => db_failed(r) && !self.reliable(),
            },
    ;

    /// All ephemeral events of a room, with the users whom such a listing names under `m.typing`.
    fn get_all_ephemeral(&self, room_id: &str, now: u64) -> (r: Result<
        Dict<String, JsonValue>,
        ErrorKind,
    >)
        ensures
            match r {
                Ok(all) => self@.rooms.contains_key(room_id@) && shows_ephemeral(
                    all@,
                    self@.rooms[room_id@],
                    Self::listed_typing(self@.rooms[room_id@].typing, now),
                ),
                Err(e) => if db_failed(r) {
                    !self.reliable()
                } else {
                    e@ == ErrorView::RoomNotFound && !self@.rooms.contains_key(room_id@)
                },
            },
    ;

    /// The ephemeral event of a type in a room.
    fn get_ephemeral(&self, room_id: &str, event_type: &str, now: u64) -> (r: Result<
        Option<JsonValue>,
        ErrorKind,
    >)
        ensures
            match r {
                Ok(content) => self@.rooms.contains_key(room_id@) && (if event_type@
                    == "m.typing"@ {
                    match Self::asked_typing(self@.rooms[room_id@].typing, now) {
                        Some(users) => content is Some
                            && crate::events::ephemeral::says_typing(content->0@, users),
                        None => content is None,
                    }
                } else {
                    json_opt(content) == (if self@.rooms[room_id@].ephemeral.contains_key(
                        event_type@,
                    ) {
                        Some(self@.rooms[room_id@].ephemeral[event_type@])
                    } else {
                        None
                    })
                }),
                Err(e) => if db_failed(r) {
                    !self.reliable()
                } else {
                    e@ == ErrorView::RoomNotFound && !self@.rooms.contains_key(room_id@)
                },
            },
    ;

    /// Puts an ephemeral event of a type into a room, or takes it away. Who is typing is not set in
    /// this way.
    fn set_ephemeral(
        &mut self,
        room_id: &str,
        event_type: &str,
        content: Option<JsonValue>,
    ) -> (r: Result<(), ErrorKind>)
        requires
            event_type@ != "m.typing"@,
        ensures
            final(self).reliable() == old(self).reliable(),
            match r {
                Ok(_) => old(self)@.rooms.contains_key(room_id@) && final(self)@ == with_room(
                    old(self)@,
                    room_id@,
                    RoomView {
                        ephemeral: match content {
                            Some(c) => old(self)@.rooms[room_id@].ephemeral.insert(
                                event_type@,
                                c@,
                            ),
                            None => old(self)@.rooms[room_id@].ephemeral.remove(event_type@),
                        },
                        ..old(self)@.rooms[room_id@]
                    },
                ),
                Err(e) => if db_failed(r) {
                    !old(self).reliable()
                } else {
                    e@ == ErrorView::RoomNotFound && !old(self)@.rooms.contains_key(room_id@)
                        && final(self)@ == old(self)@
                },
            },
    ;

    /// Notes that a user is typing in a room, for some milliseconds, or has stopped.
    fn set_typing(
        &mut self,
        room_id: &str,
        user_id: &MatrixId,
        is_typing: bool,
        timeout: u32,
        now: u64,
    ) -> (r: Result<(), ErrorKind>)
        ensures
            final(self).reliable() == old(self).reliable(),
            match r {
                Ok(_) => old(self)@.rooms.contains_key(room_id@) && final(self)@ == with_room(
                    old(self)@,
                    room_id@,
                    with_typing(
                        old(self)@.rooms[room_id@],
                        user_id@,
                        is_typing,
                        deadline(now, timeout),
                    ),
                ),
                Err(e) => if db_failed(r) {
                    !old(self).reliable()
                } else {
                    e@ == ErrorView::RoomNotFound && !old(self)@.rooms.contains_key(room_id@)
                        && final(self)@ == old(self)@
                },
            },
    ;

    /// The account data of a user. Of a user who is not there some stores show none and others say
    /// so.
    fn get_user_account_data(&self, username: &str) -> (r: Result<
        Dict<String, JsonValue>,
        ErrorKind,
    >)
        ensures
            match r {
                Ok(data) => data@ == (if self@.users.contains_key(username@) {
                    self@.users[username@].account_data
                } else {
                    Map::empty()
                }),
                Err(e) => if db_failed(r) {
                    !self.reliable()
                } else {
                    e@ == ErrorView::UserNotFound && !self@.users.contains_key(username@)
                },
            },
    ;

    fn get_batch(&self, id: &str) -> (r: Result<Option<Batch>, ErrorKind>)
        ensures
            match r {
                Ok(b) => batch_opt(b) == (if self@.batches.contains_key(id@) {
                    Some(self@.batches[id@])
                } else {
                    None
                }),
                Err(_) => db_failed(r) && !self.reliable(),
            },
    ;

    fn set_batch(&mut self, id: &str, batch: Batch) -> (r: Result<(), ErrorKind>)
        ensures
            final(self).reliable() == old(self).reliable(),
            match r {
                Ok(_) => final(self)@ == (StorageView {
                    batches: old(self)@.batches.insert(id@, batch@),
                    ..old(self)@
                }),
                Err(_) => db_failed(r) && !old(self).reliable(),
            },
    ;

    /// Answers a question for the events of a room, as clients see them.
    fn query_events(&self, query: &EventQuery) -> (r: Result<(Vec<Event>, usize), ErrorKind>)
        requires
            self@.rooms.contains_key(query@.room_id) ==> answerable(
                searched(self@.rooms[query@.room_id].events, query@),
                query@,
            ),
        ensures
            match r {
                Ok((events, end)) => self@.rooms.contains_key(query@.room_id) && event_views(
                    events@,
                ) == client_events(query_answer(self@.rooms[query@.room_id].events, query@)) && end
                    == query_end(self@.rooms[query@.room_id].events, query@),
                Err(e) => if db_failed(r) {
                    !self.reliable()
                } else {
                    e@ == ErrorView::RoomNotFound && !self@.rooms.contains_key(query@.room_id)
                },
            },
    {
        match self.query_pdus(query) {
            Ok((pdus, end)) => {
                let events = to_client_events(pdus);
                Ok((events, end))
            },
            Err(e) => Err(e),
        }
    }

    /// How a user stands to a room.
    fn get_membership(&self, user_id: &MatrixId, room_id: &str) -> (r: Result<
        Option<Membership>,
        ErrorKind,
    >)
        ensures
            match r {
                Ok(m) => self@.rooms.contains_key(room_id@) && m == membership_of(
                    self@.rooms[room_id@].events,
                    user_id@,
                ),
                Err(e) => if db_failed(r) {
                    !self.reliable()
                } else {
                    e@ == ErrorView::RoomNotFound && !self@.rooms.contains_key(room_id@)
                },
            },
    {
        match self.latest_pdu(room_id, "m.room.member", user_id.as_str()) {
            Ok(Some(pdu)) => {
                proof {
                    crate::events::law_kind_names(crate::events::ContentKind::Member);
                }
                match pdu.event_content() {
                    EventContent::Member(content) => Ok(Some(content.membership)),
                    _ => {
                        assert(false);
                        Ok(None)
                    },
                }
            },
            Ok(None) => Ok(None),
            Err(e) => Err(e),
        }
    }

    /// The rooms to which a user stands in some way, and how.
    fn get_memberships_by_user(&self, user_id: &MatrixId) -> (r: Result<
        Dict<String, Membership>,
        ErrorKind,
    >)
        ensures
            match r {
                Ok(memberships) => memberships@ == memberships_in(self@.rooms, user_id@),
                Err(_) => db_failed(r) && !self.reliable(),
            },
    {
        let rooms = match self.get_rooms() {
            Ok(rooms) => rooms,
            Err(e) => return Err(e),
        };
        let ghost all = texts(rooms@);
        let mut ret: Dict<String, Membership> = Dict::new();
        let mut i: usize = 0;
        while i < rooms.len()
            invariant
                i <= rooms@.len(),
                all == texts(rooms@),
                all.to_set() == self@.rooms.dom(),
                forall|room: Seq<char>| #[trigger]
                    ret@.contains_key(room) <==> memberships_in(
                        self@.rooms,
                        user_id@,
                    ).contains_key(room) && exists|j: int| 0 <= j < i && #[trigger] all[j] == room,
                forall|room: Seq<char>| #[trigger]
                    ret@.contains_key(room) ==> ret@[room] == memberships_in(
                        self@.rooms,
                        user_id@,
                    )[room],
            decreases rooms@.len() - i,
        {
            let ghost before = ret@;
            let ghost room = all[i as int];
            proof {
                assert(all.to_set().contains(room));
            }
            match self.get_membership(user_id, rooms[i].as_str()) {
                Ok(Some(membership)) => ret.insert(rooms[i].clone(), membership),
                Ok(None) => {},
                Err(e) => return Err(e),
            }
            proof {
                assert forall|k: Seq<char>| #[trigger]
                    ret@.contains_key(k) <==> memberships_in(
                        self@.rooms,
                        user_id@,
                    ).contains_key(k) && exists|j: int|
                        0 <= j < i + 1 && #[trigger] all[j] == k by {
                    if k == room {
                        assert(all[i as int] == k);
                    } else {
                        assert(ret@.contains_key(k) == before.contains_key(k));
                    }
                }
            }
            i += 1;
        }
        proof {
            assert forall|room: Seq<char>| memberships_in(
                self@.rooms,
                user_id@,
            ).contains_key(room) implies ret@.contains_key(room) by {
                assert(all.to_set().contains(room));
                let j = choose|j: int| 0 <= j < all.len() && all[j] == room;
                assert(all[j] == room);
            }
            assert(ret@ =~= memberships_in(self@.rooms, user_id@));
        }
        Ok(ret)
    }

    /// The most recent state event of a type with a key.
    fn latest_pdu(&self, room_id: &str, event_type: &str, state_key: &str) -> (r: Result<
        Option<StoredPdu>,
        ErrorKind,
    >)
        ensures
            match r {
                Ok(p) => self@.rooms.contains_key(room_id@) && (match p {
                    Some(pdu) => latest_state(
                        self@.rooms[room_id@].events,
                        event_type@,
                        state_key@,
                    ) == Some(pdu@) && is_state_of(pdu@, event_type@, state_key@),
                    None => latest_state(
                        self@.rooms[room_id@].events,
                        event_type@,
                        state_key@,
                    ) is None,
                }),
                Err(e) => if db_failed(r) {
                    !self.reliable()
                } else {
                    e@ == ErrorView::RoomNotFound && !self@.rooms.contains_key(room_id@)
                },
            },
    {
        let state_keys: Vec<&str> = vec![state_key];
        let types: Vec<&str> = vec![event_type];
        let none: Vec<&str> = Vec::new();
        let nobody: Vec<&MatrixId> = Vec::new();
        let query = EventQuery {
            query_type: QueryType::State {
                at: None,
                state_keys: state_keys.as_slice(),
                not_state_keys: none.as_slice(),
            },
            room_id,
            senders: nobody.as_slice(),
            not_senders: nobody.as_slice(),
            types: types.as_slice(),
            not_types: none.as_slice(),
            contains_json: None,
        };
        proof {
            assert(str_texts(state_keys@) =~= seq![state_key@]);
            assert(str_texts(types@) =~= seq![event_type@]);
            assert(str_texts(none@) =~= Seq::<Seq<char>>::empty());
            assert(id_texts(nobody@) =~= Seq::<Seq<char>>::empty());
            assert(query@ == state_event_query(room_id@, event_type@, state_key@));
        }
        match self.query_pdus(&query) {
            Ok((pdus, _)) => {
                let ghost events = self@.rooms[room_id@].events;
                proof {
                    assert(events.take(events.len() as int) =~= events);
                    lemma_state_event(events, room_id@, event_type@, state_key@);
                    lemma_latest_is_state_of(events, event_type@, state_key@);
                    if events.len() == 0 {
                        assert(stored_views(pdus@) =~= Seq::<StoredView>::empty());
                    }
                }
                let mut found = pdus;
                let ghost all = stored_views(found@);
                match found.pop() {
                    Some(pdu) => {
                        proof {
                            assert(all[all.len() - 1] == pdu@);
                        }
                        Ok(Some(pdu))
                    },
                    None => {
                        proof {
                            if latest_state(events, event_type@, state_key@) is Some {
                                assert(all.len() == 1);
                            }
                        }
                        Ok(None)
                    },
                }
            },
            Err(e) => Err(e),
        }
    }

    /// Returns the number of users in a room and the number of users invited to the room.
    ///
    /// Returns (0, 0) if the room does not exist.
    fn get_room_member_counts(&self, room_id: &str) -> (r: Result<(usize, usize), ErrorKind>)
        ensures
            match r {
                Ok((joined, invited)) => if self@.rooms.contains_key(room_id@) {
                    joined == count_members(
                        current_state(self@.rooms[room_id@].events),
                        Membership::Join,
                    ) && invited == count_members(
                        current_state(self@.rooms[room_id@].events),
                        Membership::Invite,
                    )
                } else {
                    joined == 0 && invited == 0
                },
                Err(_) => db_failed(r) && !self.reliable(),
            },
    {
        let joined = match self.count_with(room_id, Membership::Join) {
            Ok(n) => n,
            Err(e) => return Err(e),
        };
        let invited = match self.count_with(room_id, Membership::Invite) {
            Ok(n) => n,
            Err(e) => return Err(e),
        };
        Ok((joined, invited))
    }

    /// The number of users who are members of a room in a given way.
    fn count_with(&self, room_id: &str, membership: Membership) -> (r: Result<usize, ErrorKind>)
        ensures
            match r {
                Ok(n) => n == (if self@.rooms.contains_key(room_id@) {
                    count_members(current_state(self@.rooms[room_id@].events), membership)
                } else {
                    0
                }),
                Err(_) => db_failed(r) && !self.reliable(),
            },
    {
        let types: Vec<&str> = vec!["m.room.member"];
        let none: Vec<&str> = Vec::new();
        let nobody: Vec<&MatrixId> = Vec::new();
        let mut wanted = JsonValue::object();
        wanted.insert("membership", JsonValue::text(membership.name()));
        let query = EventQuery {
            query_type: QueryType::State {
                at: None,
                state_keys: none.as_slice(),
                not_state_keys: none.as_slice(),
            },
            room_id,
            senders: nobody.as_slice(),
            not_senders: nobody.as_slice(),
            types: types.as_slice(),
            not_types: none.as_slice(),
            contains_json: Some(wanted),
        };
        proof {
            assert(str_texts(types@) =~= seq!["m.room.member"@]);
            assert(str_texts(none@) =~= Seq::<Seq<char>>::empty());
            assert(id_texts(nobody@) =~= Seq::<Seq<char>>::empty());
            assert(query@ == members_query(room_id@, membership));
        }
        match self.query_pdus(&query) {
            Ok((pdus, _)) => {
                proof {
                    let events = self@.rooms[room_id@].events;
                    assert(events.take(events.len() as int) =~= events);
                    lemma_current_is_state(events);
                    lemma_count_members(current_state(events), room_id@, membership);
                    assert(stored_views(pdus@).len() == pdus@.len());
                }
                Ok(pdus.len())
            },
            Err(e) => if e.is_database() {
                Err(e)
            } else {
                Ok(0)
            },
        }
    }

    /// The current state of a room.
    fn get_full_state(&self, room_id: &str) -> (r: Result<Vec<Event>, ErrorKind>)
        ensures
            match r {
                Ok(events) => self@.rooms.contains_key(room_id@) && event_views(events@)
                    == client_events(current_state(self@.rooms[room_id@].events)),
                Err(e) => if db_failed(r) {
                    !self.reliable()
                } else {
                    e@ == ErrorView::RoomNotFound && !self@.rooms.contains_key(room_id@)
                },
            },
    {
        let none: Vec<&str> = Vec::new();
        let nobody: Vec<&MatrixId> = Vec::new();
        let query = EventQuery {
            query_type: QueryType::State {
                at: None,
                state_keys: none.as_slice(),
                not_state_keys: none.as_slice(),
            },
            room_id,
            senders: nobody.as_slice(),
            not_senders: nobody.as_slice(),
            types: none.as_slice(),
            not_types: none.as_slice(),
            contains_json: None,
        };
        proof {
            assert(str_texts(none@) =~= Seq::<Seq<char>>::empty());
            assert(id_texts(nobody@) =~= Seq::<Seq<char>>::empty());
            assert(query@ == full_state_query(room_id@));
        }
        match self.query_events(&query) {
            Ok((events, _)) => {
                proof {
                    let all = self@.rooms[room_id@].events;
                    assert(all.take(all.len() as int) =~= all);
                    lemma_full_state(all, room_id@);
                }
                Ok(events)
            },
            Err(e) => Err(e),
        }
    }

    /// The current state event of a type with a key.
    fn get_state_event(&self, room_id: &str, event_type: &str, state_key: &str) -> (r: Result<
        Option<Event>,
        ErrorKind,
    >)
        ensures
            match r {
                Ok(e) => self@.rooms.contains_key(room_id@) && event_opt(e) == (match latest_state(
                    self@.rooms[room_id@].events,
                    event_type@,
                    state_key@,
                ) {
                    Some(found) => Some(found.pdu.client_format()),
                    None => None,
                }),
                Err(e) => if db_failed(r) {
                    !self.reliable()
                } else {
                    e@ == ErrorView::RoomNotFound && !self@.rooms.contains_key(room_id@)
                },
            },
    {
        match self.latest_pdu(room_id, event_type, state_key) {
            Ok(Some(pdu)) => Ok(Some(pdu.to_client_format())),
            Ok(None) => Ok(None),
            Err(e) => Err(e),
        }
    }
}

/// The most recent state event of a type with a key is one.
pub proof fn lemma_latest_is_state_of(events: Seq<StoredView>, ty: Seq<char>, key: Seq<char>)
    ensures
        latest_state(events, ty, key) is Some ==> is_state_of(
            latest_state(events, ty, key)->0,
            ty,
            key,
        ),
    decreases events.len(),
{
    if events.len() > 0 {
        lemma_latest_is_state_of(events.drop_last(), ty, key);
    }
}

/// What an optional event says.
pub open spec fn event_opt(e: Option<Event>) -> Option<EventView> {
    match e {
        Some(f) => Some(f@),
        None => None,
    }
}

/// What an optional batch says.
pub open spec fn batch_opt(b: Option<Batch>) -> Option<BatchView> {
    match b {
        Some(c) => Some(c@),
        None => None,
    }
}

/// The ephemeral events of a room, with some users under `m.typing` in place of what was stored there.
pub open spec fn shows_ephemeral(
    all: Map<Seq<char>, Json>,
    room: RoomView,
    typing: Set<Seq<char>>,
) -> bool {
    &&& all.contains_key("m.typing"@)
    &&& crate::events::ephemeral::says_typing(all["m.typing"@], typing)
    &&& all.remove("m.typing"@) == room.ephemeral.remove("m.typing"@)
}

/// A room after a user starts or stops typing.
pub open spec fn with_typing(
    room: RoomView,
    user: Seq<char>,
    is_typing: bool,
    until: u64,
) -> RoomView {
    RoomView {
        typing: if is_typing {
            room.typing.insert(user, until)
        } else {
            room.typing.remove(user)
        },
        ..room
    }
}

/// The store with a room in place of one.
pub open spec fn with_room(s: StorageView, room_id: Seq<char>, room: RoomView) -> StorageView {
    StorageView { rooms: s.rooms.insert(room_id, room), ..s }
}

/// The store with a profile of a user in place of one.
pub open spec fn with_profile(s: StorageView, username: Seq<char>, profile: ProfileView) -> StorageView {
    StorageView {
        users: s.users.insert(username, UserView { profile, ..s.users[username] }),
        ..s
    }
}

/// The events as clients see them.
pub fn to_client_events(pdus: Vec<StoredPdu>) -> (events: Vec<Event>)
    ensures
        event_views(events@) == client_events(stored_views(pdus@)),
{
    let ghost views = stored_views(pdus@);
    let mut rest = pdus;
    let mut reversed: Vec<Event> = Vec::new();
    while rest.len() > 0
        invariant
            rest@.len() + reversed@.len() == views.len(),
            stored_views(rest@) == views.take(rest@.len() as int),
            forall|i: int|
                0 <= i < reversed@.len() ==> (#[trigger] reversed@[i])@
                    == views[views.len() - 1 - i].pdu.client_format(),
        decreases rest@.len(),
    {
        let ghost before = stored_views(rest@);
        let pdu = rest.pop().unwrap();
        proof {
            assert(before[before.len() - 1] == pdu@);
            assert(stored_views(rest@) =~= views.take(rest@.len() as int));
        }
        reversed.push(pdu.to_client_format());
    }
    let mut events: Vec<Event> = Vec::new();
    while reversed.len() > 0
        invariant
            reversed@.len() + events@.len() == views.len(),
            forall|i: int|
                0 <= i < reversed@.len() ==> (#[trigger] reversed@[i])@
                    == views[views.len() - 1 - i].pdu.client_format(),
            forall|i: int|
                0 <= i < events@.len() ==> (#[trigger] events@[i])@
                    == views[i].pdu.client_format(),
        decreases reversed@.len(),
    {
        let event = reversed.pop().unwrap();
        events.push(event);
    }
    assert(event_views(events@) =~= client_events(views));
    events
}

/// Exclusion takes priority: what is excluded is not let in, whatever is included.
pub proof fn law_exclusion_first(
    included: Seq<Seq<char>>,
    excluded: Seq<Seq<char>>,
    value: Seq<char>,
)
    ensures
        excluded.contains(value) ==> !lets_in(included, excluded, value),
        included.len() == 0 && !excluded.contains(value) ==> lets_in(included, excluded, value),
        included.contains(value) && !excluded.contains(value) ==> lets_in(
            included,
            excluded,
            value,
        ),
        included.len() > 0 && !included.contains(value) ==> !lets_in(included, excluded, value),
{
}

/// The current state holds at most one event for each type and key.
pub proof fn law_current_state_unique(events: Seq<StoredView>)
    ensures
        forall|i: int, j: int|
            0 <= i < j < current_state(events).len() ==> !same_slot(
                #[trigger] current_state(events)[i],
                #[trigger] current_state(events)[j],
            ),
    decreases events.len(),
{
    if events.len() > 0 {
        law_current_state_unique(events.drop_last());
        let before = current_state(events.drop_last());
        let e = events.last();
        match e.pdu.state_key {
            Some(key) => {
                lemma_without_unique(before, e.pdu.content.label(), key);
            },
            None => {},
        }
    }
}

/// Whether two state events have the same type and key.
pub open spec fn same_slot(a: StoredView, b: StoredView) -> bool {
    a.pdu.state_key == b.pdu.state_key && a.pdu.content.label() == b.pdu.content.label()
}

proof fn lemma_without_unique(events: Seq<StoredView>, ty: Seq<char>, key: Seq<char>)
    requires
        forall|i: int, j: int|
            0 <= i < j < events.len() ==> !same_slot(#[trigger] events[i], #[trigger] events[j]),
    ensures
        ({
            let kept = without_state(events, ty, key);
            &&& forall|i: int, j: int|
                0 <= i < j < kept.len() ==> !same_slot(#[trigger] kept[i], #[trigger] kept[j])
            &&& forall|i: int| 0 <= i < kept.len() ==> !is_state_of(#[trigger] kept[i], ty, key)
            &&& forall|i: int| 0 <= i < kept.len() ==> events.contains(#[trigger] kept[i])
        }),
    decreases events.len(),
{
    if events.len() > 0 {
        let rest = events.drop_last();
        assert forall|i: int, j: int| 0 <= i < j < rest.len() implies !same_slot(
            #[trigger] rest[i],
            #[trigger] rest[j],
        ) by {
            assert(rest[i] == events[i] && rest[j] == events[j]);
        }
        lemma_without_unique(rest, ty, key);
        let before = without_state(rest, ty, key);
        let kept = without_state(events, ty, key);
        assert forall|i: int| 0 <= i < kept.len() implies events.contains(#[trigger] kept[i]) by {
            if i < before.len() {
                assert(kept[i] == before[i]);
                let k = choose|k: int| 0 <= k < rest.len() && rest[k] == before[i];
                assert(events[k] == kept[i]);
            } else {
                assert(events[events.len() - 1] == kept[i]);
            }
        }
        assert forall|i: int, j: int| 0 <= i < j < kept.len() implies !same_slot(
            #[trigger] kept[i],
            #[trigger] kept[j],
        ) by {
            assert(kept[i] == before[i]);
            if j < before.len() {
                assert(kept[j] == before[j]);
            } else {
                let k = choose|k: int| 0 <= k < rest.len() && rest[k] == before[i];
                assert(events[k] == kept[i]);
                assert(events[events.len() - 1] == kept[j]);
            }
        }
    }
}

/// The current state holds the most recent event for each type and key that there is one for, and
/// nothing else.
pub proof fn law_current_state_recent(events: Seq<StoredView>, ty: Seq<char>, key: Seq<char>)
    ensures
        forall|e: StoredView|
            is_state_of(e, ty, key) ==> (#[trigger] current_state(events).contains(e)
                <==> latest_state(events, ty, key) == Some(e)),
    decreases events.len(),
{
    if events.len() > 0 {
        let before = current_state(events.drop_last());
        let last = events.last();
        law_current_state_recent(events.drop_last(), ty, key);
        assert forall|e: StoredView| is_state_of(e, ty, key) implies (
        #[trigger] current_state(events).contains(e) <==> latest_state(events, ty, key) == Some(
            e,
        )) by {
            match last.pdu.state_key {
                Some(k) => {
                    let label = last.pdu.content.label();
                    let kept = without_state(before, label, k);
                    lemma_without_contains(before, label, k, e);
                    let now = kept.push(last);
                    assert(now[kept.len() as int] == last);
                    if kept.contains(e) {
                        let i = choose|i: int| 0 <= i < kept.len() && kept[i] == e;
                        assert(now[i] == e);
                    }
                    if now.contains(e) && e != last {
                        let i = choose|i: int| 0 <= i < now.len() && now[i] == e;
                        assert(kept[i] == e);
                    }
                    assert(now.contains(e) <==> kept.contains(e) || e == last);
                },
                None => {},
            }
        }
    }
}

proof fn lemma_without_contains(
    events: Seq<StoredView>,
    ty: Seq<char>,
    key: Seq<char>,
    e: StoredView,
)
    ensures
        without_state(events, ty, key).contains(e) == (events.contains(e) && !is_state_of(
            e,
            ty,
            key,
        )),
    decreases events.len(),
{
    if events.len() > 0 {
        let rest = events.drop_last();
        let last = events.last();
        let before = without_state(rest, ty, key);
        let kept = without_state(events, ty, key);
        lemma_without_contains(rest, ty, key, e);
        if events.contains(e) {
            let i = choose|i: int| 0 <= i < events.len() && events[i] == e;
            if i < rest.len() {
                assert(rest[i] == e);
            }
        }
        if rest.contains(e) {
            let i = choose|i: int| 0 <= i < rest.len() && rest[i] == e;
            assert(events[i] == e);
        }
        assert(events[events.len() - 1] == last);
        if !is_state_of(last, ty, key) {
            assert(kept[before.len() as int] == last);
            if before.contains(e) {
                let i = choose|i: int| 0 <= i < before.len() && before[i] == e;
                assert(kept[i] == e);
            }
            if kept.contains(e) && e != last {
                let i = choose|i: int| 0 <= i < kept.len() && kept[i] == e;
                assert(before[i] == e);
            }
        }
    }
}

/// Whether a question that found nothing should wait for new events and be asked once more.
pub fn should_wait(wait: bool, found: &Vec<StoredPdu>, query: &EventQuery) -> (r: bool)
    ensures
        r == (wait && found@.len() == 0 && query@.query_type is Timeline),
{
    wait && found.len() == 0 && query.query_type.is_timeline()
}

/// The question to ask once new events have come: from where the first one ended, without an end.
pub fn query_after_wait<'a>(query: EventQuery<'a>, end: usize) -> (r: EventQuery<'a>)
    ensures
        r@ == (QueryView {
            query_type: QueryTypeView::Timeline { from: end, to: None },
            ..query@
        }),
{
    EventQuery { query_type: QueryType::Timeline { from: end, to: None }, ..query }
}

} // verus!
