//! The contents of room events.
use crate::dict::{Dict, Duplicate, Key};
use crate::json::{level_json, levels_json, with_text, Json, JsonValue};
use crate::text::{copy_opt, same, text_opt};
use crate::util::mxid::MatrixId;
use vstd::prelude::*;

verus! {

/// m.room.create
pub struct Create {
    pub creator: MatrixId,
    pub room_version: Option<String>,
    pub predecessor: Option<PreviousRoom>,
    pub extra: Dict<String, JsonValue>,
}

pub struct PreviousRoom {
    pub room_id: String,
    pub event_id: String,
}

/// What a `Create` says.
#[verifier::ext_equal]
pub struct CreateView {
    pub creator: Seq<char>,
    pub room_version: Option<Seq<char>>,
    pub predecessor: Option<PreviousRoomView>,
    pub extra: Map<Seq<char>, Json>,
}

pub struct PreviousRoomView {
    pub room_id: Seq<char>,
    pub event_id: Seq<char>,
}

impl View for PreviousRoom {
    type V = PreviousRoomView;

    open spec fn view(&self) -> PreviousRoomView {
        PreviousRoomView { room_id: self.room_id@, event_id: self.event_id@ }
    }
}

impl View for Create {
    type V = CreateView;

    open spec fn view(&self) -> CreateView {
        CreateView {
            creator: self.creator@,
            room_version: text_opt(self.room_version),
            predecessor: match self.predecessor {
                Some(p) => Some(p@),
                None => None,
            },
            extra: self.extra@,
        }
    }
}

impl Duplicate for PreviousRoom {
    fn duplicate(&self) -> (copy: Self) {
        PreviousRoom { room_id: self.room_id.clone(), event_id: self.event_id.clone() }
    }
}

impl Duplicate for Create {
    fn duplicate(&self) -> (copy: Self) {
        Create {
            creator: self.creator.duplicate(),
            room_version: copy_opt(&self.room_version),
            predecessor: match &self.predecessor {
                Some(p) => Some(p.duplicate()),
                None => None,
            },
            extra: self.extra.duplicate(),
        }
    }
}

/// m.room.join_rules
#[derive(Debug, PartialEq, Eq, Structural, Clone, Copy)]
pub struct JoinRules {
    pub join_rule: JoinRule,
}

#[derive(Debug, PartialEq, Eq, Structural, Clone, Copy)]
pub enum JoinRule {
    Public,
    Knock,
    Invite,
    Private,
}

/// m.room.history_visibility
#[derive(Debug, PartialEq, Eq, Structural, Clone, Copy)]
pub struct HistoryVisibility {
    pub history_visibility: HistoryVisibilityType,
}

#[derive(Debug, PartialEq, Eq, Structural, Clone, Copy)]
pub enum HistoryVisibilityType {
    Invited,
    Joined,
    Shared,
    WorldReadable,
}

/// m.room.guest_access
#[derive(Debug, PartialEq, Eq, Structural, Clone, Copy)]
pub struct GuestAccess {
    pub guest_access: GuestAccessType,
}

#[derive(Debug, PartialEq, Eq, Structural, Clone, Copy)]
pub enum GuestAccessType {
    CanJoin,
    Forbidden,
}

impl View for JoinRules {
    type V = JoinRules;

    open spec fn view(&self) -> JoinRules {
        *self
    }
}

impl View for HistoryVisibility {
    type V = HistoryVisibility;

    open spec fn view(&self) -> HistoryVisibility {
        *self
    }
}

impl View for GuestAccess {
    type V = GuestAccess;

    open spec fn view(&self) -> GuestAccess {
        *self
    }
}

/// m.room.name
pub struct Name {
    pub name: String,
}

/// m.room.topic
pub struct Topic {
    pub topic: String,
}

impl View for Name {
    type V = Seq<char>;

    open spec fn view(&self) -> Seq<char> {
        self.name@
    }
}

impl View for Topic {
    type V = Seq<char>;

    open spec fn view(&self) -> Seq<char> {
        self.topic@
    }
}

/// m.room.power_levels
pub struct PowerLevels {
    pub ban: Option<u32>,
    pub invite: Option<u32>,
    pub kick: Option<u32>,
    pub redact: Option<u32>,
    pub events: Dict<String, u32>,
    pub events_default: Option<u32>,
    pub state_default: Option<u32>,
    pub users: Dict<MatrixId, u32>,
    pub users_default: Option<u32>,
    pub notifications: Option<Notifications>,
}

#[derive(Debug, PartialEq, Eq, Structural, Clone, Copy)]
pub struct Notifications {
    pub room: u32,
}

/// What a `PowerLevels` says.
#[verifier::ext_equal]
pub struct PowerLevelsView {
    pub ban: Option<u32>,
    pub invite: Option<u32>,
    pub kick: Option<u32>,
    pub redact: Option<u32>,
    pub events: Map<Seq<char>, u32>,
    pub events_default: Option<u32>,
    pub state_default: Option<u32>,
    pub users: Map<Seq<char>, u32>,
    pub users_default: Option<u32>,
    pub notifications: Option<Notifications>,
}

/// The level, or a default where it is left out.
pub open spec fn level_or(level: Option<u32>, default: u32) -> u32 {
    match level {
        Some(n) => n,
        None => default,
    }
}

impl PowerLevelsView {
    pub open spec fn ban_level(self) -> u32 {
        level_or(self.ban, 50)
    }

    pub open spec fn invite_level(self) -> u32 {
        level_or(self.invite, 50)
    }

    pub open spec fn kick_level(self) -> u32 {
        level_or(self.kick, 50)
    }

    pub open spec fn redact_level(self) -> u32 {
        level_or(self.redact, 50)
    }

    pub open spec fn events_level(self) -> u32 {
        level_or(self.events_default, 0)
    }

    pub open spec fn state_level(self) -> u32 {
        level_or(self.state_default, 50)
    }

    pub open spec fn users_level(self) -> u32 {
        level_or(self.users_default, 0)
    }

    /// The level that a user has.
    pub open spec fn user_level(self, user: Seq<char>) -> u32 {
        if self.users.contains_key(user) {
            self.users[user]
        } else {
            self.users_level()
        }
    }

    /// The level that is needed to send an event of a type.
    pub open spec fn event_level(self, event_type: Seq<char>, is_state_event: bool) -> u32 {
        if self.events.contains_key(event_type) {
            self.events[event_type]
        } else if is_state_event {
            self.state_level()
        } else {
            self.events_level()
        }
    }
}

/// The effective power levels in a room that has no power levels event.
pub open spec fn no_event_levels(creator: Seq<char>) -> PowerLevelsView {
    PowerLevelsView {
        ban: Some(50),
        invite: Some(50),
        kick: Some(50),
        redact: Some(50),
        events: Map::empty(),
        events_default: Some(0),
        state_default: Some(0),
        users: Map::<Seq<char>, u32>::empty().insert(creator, 100),
        users_default: Some(0),
        notifications: None,
    }
}

/// The power levels of a new room.
pub open spec fn default_levels() -> PowerLevelsView {
    PowerLevelsView {
        ban: Some(50),
        invite: Some(50),
        kick: Some(50),
        redact: Some(50),
        events: Map::empty(),
        events_default: Some(0),
        state_default: Some(50),
        users: Map::empty(),
        users_default: Some(50),
        notifications: None,
    }
}

/// A power levels event in which everything is left out.
pub open spec fn unspecified_levels() -> PowerLevelsView {
    PowerLevelsView {
        ban: None,
        invite: None,
        kick: None,
        redact: None,
        events: Map::empty(),
        events_default: None,
        state_default: None,
        users: Map::empty(),
        users_default: None,
        notifications: None,
    }
}

/// Without a power levels event the levels are those of one in which everything is left out, except
/// that state events need level 0 and the creator of the room has level 100.
pub proof fn law_no_event_levels(creator: Seq<char>, user: Seq<char>, event_type: Seq<char>)
    ensures
        no_event_levels(creator).ban_level() == unspecified_levels().ban_level(),
        no_event_levels(creator).invite_level() == unspecified_levels().invite_level(),
        no_event_levels(creator).kick_level() == unspecified_levels().kick_level(),
        no_event_levels(creator).redact_level() == unspecified_levels().redact_level(),
        no_event_levels(creator).events_level() == unspecified_levels().events_level(),
        no_event_levels(creator).users_level() == unspecified_levels().users_level(),
        unspecified_levels().ban_level() == 50,
        unspecified_levels().invite_level() == 50,
        unspecified_levels().kick_level() == 50,
        unspecified_levels().redact_level() == 50,
        unspecified_levels().events_level() == 0,
        unspecified_levels().state_level() == 50,
        unspecified_levels().users_level() == 0,
        no_event_levels(creator).event_level(event_type, false)
            == unspecified_levels().event_level(event_type, false),
        no_event_levels(creator).state_level() == 0,
        no_event_levels(creator).event_level(event_type, true) == 0,
        no_event_levels(creator).user_level(creator) == 100,
        user != creator ==> no_event_levels(creator).user_level(user)
            == unspecified_levels().user_level(user),
{
}

impl View for PowerLevels {
    type V = PowerLevelsView;

    open spec fn view(&self) -> PowerLevelsView {
        PowerLevelsView {
            ban: self.ban,
            invite: self.invite,
            kick: self.kick,
            redact: self.redact,
            events: self.events@,
            events_default: self.events_default,
            state_default: self.state_default,
            users: self.users@,
            users_default: self.users_default,
            notifications: self.notifications,
        }
    }
}

impl Duplicate for PowerLevels {
    fn duplicate(&self) -> (copy: Self) {
        PowerLevels {
            ban: self.ban,
            invite: self.invite,
            kick: self.kick,
            redact: self.redact,
            events: self.events.duplicate(),
            events_default: self.events_default,
            state_default: self.state_default,
            users: self.users.duplicate(),
            users_default: self.users_default,
            notifications: self.notifications,
        }
    }
}

impl PowerLevels {
    /// This function returns the effective power levels for when a room has no power levels event.
    /// The values are the same as when there is an event but the values are unspecified
    /// (i.e. `None`), with the exception that state_default is 0 and the creator of the room has
    /// power level 100.
    pub fn no_event_default_levels(room_creator: &MatrixId) -> (levels: Self)
        ensures
            levels@ == no_event_levels(room_creator@),
    {
        let mut users: Dict<MatrixId, u32> = Dict::new();
        users.insert(room_creator.duplicate(), 100);
        PowerLevels {
            ban: Some(50),
            invite: Some(50),
            kick: Some(50),
            redact: Some(50),
            events: Dict::new(),
            events_default: Some(0),
            state_default: Some(0),
            users,
            users_default: Some(0),
            notifications: None,
        }
    }

    pub fn ban(&self) -> (n: u32)
        ensures
            n == self@.ban_level(),
    {
        self.ban.unwrap_or(50)
    }

    pub fn invite(&self) -> (n: u32)
        ensures
            n == self@.invite_level(),
    {
        self.invite.unwrap_or(50)
    }

    pub fn kick(&self) -> (n: u32)
        ensures
            n == self@.kick_level(),
    {
        self.kick.unwrap_or(50)
    }

    pub fn redact(&self) -> (n: u32)
        ensures
            n == self@.redact_level(),
    {
        self.redact.unwrap_or(50)
    }

    pub fn events_default(&self) -> (n: u32)
        ensures
            n == self@.events_level(),
    {
        self.events_default.unwrap_or(0)
    }

    pub fn state_default(&self) -> (n: u32)
        ensures
            n == self@.state_level(),
    {
        self.state_default.unwrap_or(50)
    }

    pub fn users_default(&self) -> (n: u32)
        ensures
            n == self@.users_level(),
    {
        self.users_default.unwrap_or(0)
    }

    pub fn notifications(&self) -> (n: Notifications)
        ensures
            n == (match self@.notifications {
                Some(given) => given,
                None => (Notifications { room: 50 }),
            }),
    {
        match self.notifications {
            Some(given) => given,
            None => Notifications::default(),
        }
    }

    /// The level that a user has.
    pub fn get_user_level(&self, user_id: &MatrixId) -> (n: u32)
        ensures
            n == self@.user_level(user_id@),
    {
        match self.users.get(user_id) {
            Some(n) => *n,
            None => self.users_default(),
        }
    }

    /// The level that is needed to send an event of a type.
    pub fn get_event_level(&self, event_type: &str, is_state_event: bool) -> (n: u32)
        ensures
            n == self@.event_level(event_type@, is_state_event),
    {
        match self.events.get(&event_type.to_owned()) {
            Some(n) => *n,
            None => if is_state_event {
                self.state_default()
            } else {
                self.events_default()
            },
        }
    }
}

impl Default for PowerLevels {
    fn default() -> (levels: Self)
        ensures
            levels@ == default_levels(),
    {
        PowerLevels {
            ban: Some(50),
            invite: Some(50),
            kick: Some(50),
            redact: Some(50),
            events: Dict::new(),
            events_default: Some(0),
            state_default: Some(50),
            users: Dict::new(),
            users_default: Some(50),
            notifications: None,
        }
    }
}

impl Default for Notifications {
    fn default() -> (n: Self)
        ensures
            n == (Notifications { room: 50 }),
    {
        Notifications { room: 50 }
    }
}

/// m.room.member
pub struct Member {
    pub avatar_url: Option<String>,
    pub displayname: Option<String>,
    pub membership: Membership,
    pub is_direct: Option<bool>,
}

#[derive(Debug, PartialEq, Eq, Structural, Clone, Copy)]
pub enum Membership {
    Invite,
    Join,
    Knock,
    Leave,
    Ban,
}

impl View for Membership {
    type V = Membership;

    open spec fn view(&self) -> Membership {
        *self
    }
}

/// What a `Member` says.
pub struct MemberView {
    pub avatar_url: Option<Seq<char>>,
    pub displayname: Option<Seq<char>>,
    pub membership: Membership,
    pub is_direct: Option<bool>,
}

impl View for Member {
    type V = MemberView;

    open spec fn view(&self) -> MemberView {
        MemberView {
            avatar_url: text_opt(self.avatar_url),
            displayname: text_opt(self.displayname),
            membership: self.membership,
            is_direct: self.is_direct,
        }
    }
}

impl Duplicate for Member {
    fn duplicate(&self) -> (copy: Self) {
        Member {
            avatar_url: copy_opt(&self.avatar_url),
            displayname: copy_opt(&self.displayname),
            membership: self.membership,
            is_direct: self.is_direct,
        }
    }
}

/// A text that names no membership.
#[derive(Debug)]
pub struct InvalidMembership(pub String);

/// The name of a membership.
pub open spec fn membership_name(m: Membership) -> Seq<char> {
    match m {
        Membership::Ban => "ban"@,
        Membership::Invite => "invite"@,
        Membership::Join => "join"@,
        Membership::Knock => "knock"@,
        Membership::Leave => "leave"@,
    }
}

/// The membership with a name.
pub open spec fn membership_named(s: Seq<char>) -> Option<Membership> {
    if s == "ban"@ {
        Some(Membership::Ban)
    } else if s == "invite"@ {
        Some(Membership::Invite)
    } else if s == "join"@ {
        Some(Membership::Join)
    } else if s == "knock"@ {
        Some(Membership::Knock)
    } else if s == "leave"@ {
        Some(Membership::Leave)
    } else {
        None
    }
}

/// The name of a membership names that membership.
pub proof fn law_membership_names(m: Membership)
    ensures
        membership_named(membership_name(m)) == Some(m),
{
    reveal_strlit("ban");
    reveal_strlit("invite");
    reveal_strlit("join");
    reveal_strlit("knock");
    reveal_strlit("leave");
    assert("ban"@.len() == 3 && "invite"@.len() == 6 && "join"@.len() == 4 && "knock"@.len() == 5
        && "leave"@.len() == 5);
    assert("knock"@[0] != "leave"@[0]);
}

impl Membership {
    /// The membership with a name.
    pub fn parse(s: &str) -> (r: Result<Membership, InvalidMembership>)
        ensures
            match r {
                Ok(m) => membership_named(s@) == Some(m),
                Err(e) => membership_named(s@) is None && e.0@ == s@,
            },
    {
        if same(s, "ban") {
            Ok(Membership::Ban)
        } else if same(s, "invite") {
            Ok(Membership::Invite)
        } else if same(s, "join") {
            Ok(Membership::Join)
        } else if same(s, "knock") {
            Ok(Membership::Knock)
        } else if same(s, "leave") {
            Ok(Membership::Leave)
        } else {
            Err(InvalidMembership(s.to_owned()))
        }
    }

    /// The name of the membership.
    pub fn name(&self) -> (s: &'static str)
        ensures
            s@ == membership_name(*self),
    {
        match self {
            Membership::Ban => "ban",
            Membership::Invite => "invite",
            Membership::Join => "join",
            Membership::Knock => "knock",
            Membership::Leave => "leave",
        }
    }

    /// The name of the membership.
    pub fn to_string(&self) -> (s: String)
        ensures
            s@ == membership_name(*self),
    {
        self.name().to_owned()
    }
}

impl std::str::FromStr for Membership {
    type Err = InvalidMembership;

    /// The membership with a name.
    fn from_str(s: &str) -> (r: Result<Self, InvalidMembership>)
        ensures
            match r {
                Ok(m) => membership_named(s@) == Some(m),
                Err(e) => membership_named(s@) is None && e.0@ == s@,
            },
    {
        Membership::parse(s)
    }
}

/// m.room.redaction
pub struct Redaction {
    pub reason: Option<String>,
}

impl View for Redaction {
    type V = Option<Seq<char>>;

    open spec fn view(&self) -> Option<Seq<char>> {
        text_opt(self.reason)
    }
}

pub open spec fn join_rule_name(rule: JoinRule) -> Seq<char> {
    match rule {
        JoinRule::Public => "public"@,
        JoinRule::Knock => "knock"@,
        JoinRule::Invite => "invite"@,
        JoinRule::Private => "private"@,
    }
}

pub open spec fn visibility_name(v: HistoryVisibilityType) -> Seq<char> {
    match v {
        HistoryVisibilityType::Invited => "invited"@,
        HistoryVisibilityType::Joined => "joined"@,
        HistoryVisibilityType::Shared => "shared"@,
        HistoryVisibilityType::WorldReadable => "world_readable"@,
    }
}

pub open spec fn guest_access_name(g: GuestAccessType) -> Seq<char> {
    match g {
        GuestAccessType::CanJoin => "can_join"@,
        GuestAccessType::Forbidden => "forbidden"@,
    }
}

/// The object with one member.
pub open spec fn single(key: Seq<char>, value: Json) -> Json {
    Json::Object(Map::<Seq<char>, Json>::empty().insert(key, value))
}

/// The JSON of a room's predecessor.
pub open spec fn predecessor_json(p: PreviousRoomView) -> Json {
    Json::Object(
        Map::<Seq<char>, Json>::empty().insert("room_id"@, Json::Text(p.room_id)).insert(
            "event_id"@,
            Json::Text(p.event_id),
        ),
    )
}

/// The JSON of a create event: the extra members stand beside the named ones, and win over them.
pub open spec fn create_json(c: CreateView) -> Json {
    let named = with_text(
        Map::<Seq<char>, Json>::empty().insert("creator"@, Json::Text(c.creator)),
        "room_version"@,
        c.room_version,
    );
    let linked = match c.predecessor {
        Some(p) => named.insert("predecessor"@, predecessor_json(p)),
        None => named,
    };
    Json::Object(linked.union_prefer_right(c.extra))
}

/// The JSON of a power levels event.
pub open spec fn power_levels_json(p: PowerLevelsView) -> Json {
    let members = Map::<Seq<char>, Json>::empty().insert("ban"@, level_json(p.ban)).insert(
        "invite"@,
        level_json(p.invite),
    ).insert("kick"@, level_json(p.kick)).insert("redact"@, level_json(p.redact)).insert(
        "events"@,
        levels_json(p.events),
    ).insert("events_default"@, level_json(p.events_default)).insert(
        "state_default"@,
        level_json(p.state_default),
    ).insert("users"@, levels_json(p.users)).insert("users_default"@, level_json(p.users_default));
    Json::Object(
        match p.notifications {
            Some(n) => members.insert(
                "notifications"@,
                single("room"@, Json::Integer(n.room as int)),
            ),
            None => members,
        },
    )
}

/// The JSON of a member event.
pub open spec fn member_json(m: MemberView) -> Json {
    let named = with_text(
        with_text(Map::empty(), "avatar_url"@, m.avatar_url),
        "displayname"@,
        m.displayname,
    ).insert("membership"@, Json::Text(membership_name(m.membership)));
    Json::Object(
        match m.is_direct {
            Some(b) => named.insert("is_direct"@, Json::Bool(b)),
            None => named,
        },
    )
}

fn level_value(level: Option<u32>) -> (v: JsonValue)
    ensures
        v@ == level_json(level),
{
    match level {
        Some(n) => JsonValue::integer(n as i64),
        None => JsonValue::null(),
    }
}

/// Puts a text member into an object where there is a text.
pub fn insert_text(object: &mut JsonValue, key: &str, text: &Option<String>)
    requires
        old(object)@ is Object,
    ensures
        final(object)@ == Json::Object(with_text(old(object)@->Object_0, key@, text_opt(*text))),
{
    match text {
        Some(t) => object.insert(key, JsonValue::text(t.as_str())),
        None => {},
    }
}

/// A key that reads as a text.
trait TextKey: Key<V = Seq<char>> {
    fn key_text(&self) -> (s: &str)
        ensures
            s@ == self@,
    ;
}

impl TextKey for String {
    fn key_text(&self) -> (s: &str) {
        self.as_str()
    }
}

impl TextKey for MatrixId {
    fn key_text(&self) -> (s: &str) {
        self.as_str()
    }
}

fn levels_value<K: TextKey>(levels: &Dict<K, u32>) -> (v: JsonValue)
    ensures
        v@ == levels_json(levels@),
{
    let mut v = JsonValue::object();
    let ghost listing = levels.listing();
    let n: usize = levels.len();
    assert(v@->Object_0 =~= levels_json(crate::dict::map_of(listing.take(0)))->Object_0);
    for i in 0..n
        invariant
            n == listing.len(),
            listing == levels.listing(),
            crate::dict::distinct_keys(listing),
            v@ == levels_json(crate::dict::map_of(listing.take(i as int))),
    {
        let e = levels.entry(i);
        v.insert(e.0.key_text(), JsonValue::integer(*e.1 as i64));
        proof {
            let before = listing.take(i as int);
            assert(listing.take(i + 1) =~= before.push(listing[i as int]));
            crate::dict::lemma_map_of_push(before, listing[i as int].0, listing[i as int].1);
            assert(v@->Object_0 =~= levels_json(
                crate::dict::map_of(listing.take(i + 1)),
            )->Object_0);
        }
    }
    assert(listing.take(n as int) =~= listing);
    v
}

impl Create {
    pub fn to_json(&self) -> (v: JsonValue)
        ensures
            v@ == create_json(self@),
    {
        let mut v = JsonValue::object();
        v.insert("creator", JsonValue::text(self.creator.as_str()));
        insert_text(&mut v, "room_version", &self.room_version);
        match &self.predecessor {
            Some(p) => {
                let mut w = JsonValue::object();
                w.insert("room_id", JsonValue::text(p.room_id.as_str()));
                w.insert("event_id", JsonValue::text(p.event_id.as_str()));
                v.insert("predecessor", w);
            },
            None => {},
        }
        v.insert_all(&self.extra);
        v
    }
}

impl JoinRules {
    pub fn to_json(&self) -> (v: JsonValue)
        ensures
            v@ == single("join_rule"@, Json::Text(join_rule_name(self.join_rule))),
    {
        let name = match self.join_rule {
            JoinRule::Public => "public",
            JoinRule::Knock => "knock",
            JoinRule::Invite => "invite",
            JoinRule::Private => "private",
        };
        let mut v = JsonValue::object();
        v.insert("join_rule", JsonValue::text(name));
        v
    }
}

impl HistoryVisibility {
    pub fn to_json(&self) -> (v: JsonValue)
        ensures
            v@ == single(
                "history_visibility"@,
                Json::Text(visibility_name(self.history_visibility)),
            ),
    {
        let name = match self.history_visibility {
            HistoryVisibilityType::Invited => "invited",
            HistoryVisibilityType::Joined => "joined",
            HistoryVisibilityType::Shared => "shared",
            HistoryVisibilityType::WorldReadable => "world_readable",
        };
        let mut v = JsonValue::object();
        v.insert("history_visibility", JsonValue::text(name));
        v
    }
}

impl GuestAccess {
    pub fn to_json(&self) -> (v: JsonValue)
        ensures
            v@ == single("guest_access"@, Json::Text(guest_access_name(self.guest_access))),
    {
        let name = match self.guest_access {
            GuestAccessType::CanJoin => "can_join",
            GuestAccessType::Forbidden => "forbidden",
        };
        let mut v = JsonValue::object();
        v.insert("guest_access", JsonValue::text(name));
        v
    }
}

impl PowerLevels {
    pub fn to_json(&self) -> (v: JsonValue)
        ensures
            v@ == power_levels_json(self@),
    {
        let mut v = JsonValue::object();
        v.insert("ban", level_value(self.ban));
        v.insert("invite", level_value(self.invite));
        v.insert("kick", level_value(self.kick));
        v.insert("redact", level_value(self.redact));
        v.insert("events", levels_value(&self.events));
        v.insert("events_default", level_value(self.events_default));
        v.insert("state_default", level_value(self.state_default));
        v.insert("users", levels_value(&self.users));
        v.insert("users_default", level_value(self.users_default));
        match &self.notifications {
            Some(n) => {
                let mut w = JsonValue::object();
                w.insert("room", JsonValue::integer(n.room as i64));
                v.insert("notifications", w);
            },
            None => {},
        }
        v
    }
}

impl Member {
    pub fn to_json(&self) -> (v: JsonValue)
        ensures
            v@ == member_json(self@),
    {
        let mut v = JsonValue::object();
        insert_text(&mut v, "avatar_url", &self.avatar_url);
        insert_text(&mut v, "displayname", &self.displayname);
        v.insert("membership", JsonValue::text(self.membership.name()));
        match self.is_direct {
            Some(b) => v.insert("is_direct", JsonValue::bool(b)),
            None => {},
        }
        v
    }
}

} // verus!
