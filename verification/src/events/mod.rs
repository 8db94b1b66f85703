//! Room events.
use crate::dict::Duplicate;
use crate::events::room::{
    create_json, guest_access_name, insert_text, join_rule_name, member_json, power_levels_json,
    single, visibility_name, Create, CreateView, GuestAccess, HistoryVisibility, JoinRules, Member,
    MemberView, Name, PowerLevels, PowerLevelsView, Redaction, Topic,
};
use crate::json::{with_text, Json, JsonValue};
use crate::text::{copy_opt, same, text_opt};
use crate::util::mxid::MatrixId;
use vstd::prelude::*;

pub mod ephemeral;
pub mod laws;
pub mod pdu;
pub mod room;
pub mod room_version;

verus! {

/// What an event says, by its type.
pub enum EventContent {
    Create(Create),
    JoinRules(JoinRules),
    HistoryVisibility(HistoryVisibility),
    GuestAccess(GuestAccess),
    Name(Name),
    Topic(Topic),
    PowerLevels(PowerLevels),
    Member(Member),
    Redaction(Redaction),
    Unknown { ty: String, content: JsonValue },
}

/// The mathematical form of an `EventContent`.
pub enum ContentView {
    Create(CreateView),
    JoinRules(JoinRules),
    HistoryVisibility(HistoryVisibility),
    GuestAccess(GuestAccess),
    Name(Seq<char>),
    Topic(Seq<char>),
    PowerLevels(PowerLevelsView),
    Member(MemberView),
    Redaction(Option<Seq<char>>),
    Unknown { ty: Seq<char>, content: Json },
}

impl View for EventContent {
    type V = ContentView;

    open spec fn view(&self) -> ContentView {
        match self {
            EventContent::Create(c) => ContentView::Create(c@),
            EventContent::JoinRules(c) => ContentView::JoinRules(*c),
            EventContent::HistoryVisibility(c) => ContentView::HistoryVisibility(*c),
            EventContent::GuestAccess(c) => ContentView::GuestAccess(*c),
            EventContent::Name(c) => ContentView::Name(c@),
            EventContent::Topic(c) => ContentView::Topic(c@),
            EventContent::PowerLevels(c) => ContentView::PowerLevels(c@),
            EventContent::Member(c) => ContentView::Member(c@),
            EventContent::Redaction(c) => ContentView::Redaction(c@),
            EventContent::Unknown { ty, content } => ContentView::Unknown {
                ty: ty@,
                content: content@,
            },
        }
    }
}

/// The types of events whose content has a form of its own.
#[derive(Debug, PartialEq, Eq, Structural, Clone, Copy)]
pub enum ContentKind {
    Create,
    JoinRules,
    HistoryVisibility,
    GuestAccess,
    Name,
    Topic,
    PowerLevels,
    Member,
    Redaction,
}

/// The name of an event type.
pub open spec fn kind_name(kind: ContentKind) -> Seq<char> {
    match kind {
        ContentKind::Create => "m.room.create"@,
        ContentKind::JoinRules => "m.room.join_rules"@,
        ContentKind::HistoryVisibility => "m.room.history_visibility"@,
        ContentKind::GuestAccess => "m.room.guest_access"@,
        ContentKind::Name => "m.room.name"@,
        ContentKind::Topic => "m.room.topic"@,
        ContentKind::PowerLevels => "m.room.power_levels"@,
        ContentKind::Member => "m.room.member"@,
        ContentKind::Redaction => "m.room.redaction"@,
    }
}

/// The event type with a name.
pub open spec fn kind_named(name: Seq<char>) -> Option<ContentKind> {
    if name == "m.room.create"@ {
        Some(ContentKind::Create)
    } else if name == "m.room.join_rules"@ {
        Some(ContentKind::JoinRules)
    } else if name == "m.room.history_visibility"@ {
        Some(ContentKind::HistoryVisibility)
    } else if name == "m.room.guest_access"@ {
        Some(ContentKind::GuestAccess)
    } else if name == "m.room.name"@ {
        Some(ContentKind::Name)
    } else if name == "m.room.topic"@ {
        Some(ContentKind::Topic)
    } else if name == "m.room.power_levels"@ {
        Some(ContentKind::PowerLevels)
    } else if name == "m.room.member"@ {
        Some(ContentKind::Member)
    } else if name == "m.room.redaction"@ {
        Some(ContentKind::Redaction)
    } else {
        None
    }
}

/// No two event types have the same name.
pub proof fn law_kind_names(kind: ContentKind)
    ensures
        kind_named(kind_name(kind)) == Some(kind),
{
    reveal_strlit("m.room.create");
    reveal_strlit("m.room.join_rules");
    reveal_strlit("m.room.history_visibility");
    reveal_strlit("m.room.guest_access");
    reveal_strlit("m.room.name");
    reveal_strlit("m.room.topic");
    reveal_strlit("m.room.power_levels");
    reveal_strlit("m.room.member");
    reveal_strlit("m.room.redaction");
    assert("m.room.create"@.len() == 13 && "m.room.join_rules"@.len() == 17
        && "m.room.history_visibility"@.len() == 25 && "m.room.guest_access"@.len() == 19
        && "m.room.name"@.len() == 11 && "m.room.topic"@.len() == 12
        && "m.room.power_levels"@.len() == 19 && "m.room.member"@.len() == 13
        && "m.room.redaction"@.len() == 16);
    assert("m.room.create"@[7] != "m.room.member"@[7]);
    assert("m.room.guest_access"@[7] != "m.room.power_levels"@[7]);
}

impl ContentKind {
    /// The event type with a name.
    pub fn of(ty: &str) -> (r: Option<ContentKind>)
        ensures
            r == kind_named(ty@),
    {
        if same(ty, "m.room.create") {
            Some(ContentKind::Create)
        } else if same(ty, "m.room.join_rules") {
            Some(ContentKind::JoinRules)
        } else if same(ty, "m.room.history_visibility") {
            Some(ContentKind::HistoryVisibility)
        } else if same(ty, "m.room.guest_access") {
            Some(ContentKind::GuestAccess)
        } else if same(ty, "m.room.name") {
            Some(ContentKind::Name)
        } else if same(ty, "m.room.topic") {
            Some(ContentKind::Topic)
        } else if same(ty, "m.room.power_levels") {
            Some(ContentKind::PowerLevels)
        } else if same(ty, "m.room.member") {
            Some(ContentKind::Member)
        } else if same(ty, "m.room.redaction") {
            Some(ContentKind::Redaction)
        } else {
            None
        }
    }
}

impl ContentView {
    /// The form of the content, where it has one of its own.
    pub open spec fn kind(self) -> Option<ContentKind> {
        match self {
            ContentView::Create(_) => Some(ContentKind::Create),
            ContentView::JoinRules(_) => Some(ContentKind::JoinRules),
            ContentView::HistoryVisibility(_) => Some(ContentKind::HistoryVisibility),
            ContentView::GuestAccess(_) => Some(ContentKind::GuestAccess),
            ContentView::Name(_) => Some(ContentKind::Name),
            ContentView::Topic(_) => Some(ContentKind::Topic),
            ContentView::PowerLevels(_) => Some(ContentKind::PowerLevels),
            ContentView::Member(_) => Some(ContentKind::Member),
            ContentView::Redaction(_) => Some(ContentKind::Redaction),
            ContentView::Unknown { .. } => None,
        }
    }

    /// The event type.
    pub open spec fn label(self) -> Seq<char> {
        match self {
            ContentView::Unknown { ty, .. } => ty,
            _ => kind_name(self.kind()->0),
        }
    }

    /// Content of an event type with a form of its own has that form.
    pub open spec fn well_labelled(self) -> bool {
        self.kind() == kind_named(self.label())
    }

    /// The JSON of the content.
    pub open spec fn json(self) -> Json {
        match self {
            ContentView::Create(c) => create_json(c),
            ContentView::JoinRules(c) => single(
                "join_rule"@,
                Json::Text(join_rule_name(c.join_rule)),
            ),
            ContentView::HistoryVisibility(c) => single(
                "history_visibility"@,
                Json::Text(visibility_name(c.history_visibility)),
            ),
            ContentView::GuestAccess(c) => single(
                "guest_access"@,
                Json::Text(guest_access_name(c.guest_access)),
            ),
            ContentView::Name(name) => single("name"@, Json::Text(name)),
            ContentView::Topic(topic) => single("topic"@, Json::Text(topic)),
            ContentView::PowerLevels(c) => power_levels_json(c),
            ContentView::Member(c) => member_json(c),
            ContentView::Redaction(reason) => Json::Object(
                with_text(Map::empty(), "reason"@, reason),
            ),
            ContentView::Unknown { content, .. } => content,
        }
    }

    /// The content without what a redaction takes away.
    pub open spec fn redacted(self) -> ContentView {
        match self {
            ContentView::Create(c) => ContentView::Create(
                CreateView {
                    creator: c.creator,
                    room_version: None,
                    predecessor: None,
                    extra: Map::empty(),
                },
            ),
            ContentView::JoinRules(_) | ContentView::HistoryVisibility(_) => self,
            ContentView::PowerLevels(p) => ContentView::PowerLevels(
                PowerLevelsView { invite: None, notifications: None, ..p },
            ),
            ContentView::Member(m) => ContentView::Member(
                MemberView {
                    avatar_url: None,
                    displayname: None,
                    membership: m.membership,
                    is_direct: None,
                },
            ),
            ContentView::Redaction(_) => ContentView::Redaction(None),
            ContentView::Unknown { ty, content } => ContentView::Unknown {
                ty,
                content: redacted_json(ty, content),
            },
            _ => ContentView::Unknown { ty: self.label(), content: Json::Object(Map::empty()) },
        }
    }
}

/// A redaction leaves nothing of content without a form of its own, except the aliases of an
/// `m.room.aliases` event.
pub open spec fn redacted_json(ty: Seq<char>, content: Json) -> Json {
    if ty == "m.room.aliases"@ && content is Object && content->Object_0.contains_key("aliases"@) {
        single("aliases"@, content->Object_0["aliases"@])
    } else {
        Json::Object(Map::empty())
    }
}

/// A redaction keeps the type of an event, and redacting once more changes nothing.
pub proof fn law_redaction_idempotent(content: ContentView)
    ensures
        content.redacted().label() == content.label(),
        content.redacted().redacted() == content.redacted(),
{
    match content {
        ContentView::Create(c) => {
            assert(content.redacted().redacted()->Create_0 =~= content.redacted()->Create_0);
        },
        ContentView::Unknown { ty, content: json } => {
            let once = redacted_json(ty, json);
            if once != Json::Object(Map::<Seq<char>, Json>::empty()) {
                assert(once->Object_0.contains_key("aliases"@));
                assert(redacted_json(ty, once) == once);
            }
        },
        ContentView::Name(_) => {
            lemma_not_aliases(content.label());
        },
        _ => {},
    }
}

proof fn lemma_not_aliases(ty: Seq<char>)
    ensures
        redacted_json(ty, Json::Object(Map::empty())) == Json::Object(
            Map::<Seq<char>, Json>::empty(),
        ),
{
}

impl Duplicate for EventContent {
    fn duplicate(&self) -> (copy: Self) {
        match self {
            EventContent::Create(c) => EventContent::Create(c.duplicate()),
            EventContent::JoinRules(c) => EventContent::JoinRules(*c),
            EventContent::HistoryVisibility(c) => EventContent::HistoryVisibility(*c),
            EventContent::GuestAccess(c) => EventContent::GuestAccess(*c),
            EventContent::Name(c) => EventContent::Name(Name { name: c.name.clone() }),
            EventContent::Topic(c) => EventContent::Topic(Topic { topic: c.topic.clone() }),
            EventContent::PowerLevels(c) => EventContent::PowerLevels(c.duplicate()),
            EventContent::Member(c) => EventContent::Member(c.duplicate()),
            EventContent::Redaction(c) => EventContent::Redaction(
                Redaction { reason: copy_opt(&c.reason) },
            ),
            EventContent::Unknown { ty, content } => EventContent::Unknown {
                ty: ty.clone(),
                content: content.duplicate(),
            },
        }
    }
}

impl EventContent {
    /// The event type.
    pub fn get_type(&self) -> (ty: &str)
        ensures
            ty@ == self@.label(),
    {
        match self {
            EventContent::Create(_) => "m.room.create",
            EventContent::JoinRules(_) => "m.room.join_rules",
            EventContent::HistoryVisibility(_) => "m.room.history_visibility",
            EventContent::GuestAccess(_) => "m.room.guest_access",
            EventContent::Name(_) => "m.room.name",
            EventContent::Topic(_) => "m.room.topic",
            EventContent::PowerLevels(_) => "m.room.power_levels",
            EventContent::Member(_) => "m.room.member",
            EventContent::Redaction(_) => "m.room.redaction",
            EventContent::Unknown { ty, .. } => ty.as_str(),
        }
    }

    /// The JSON of the content.
    pub fn content_as_json(&self) -> (v: JsonValue)
        ensures
            v@ == self@.json(),
    {
        match self {
            EventContent::Create(c) => c.to_json(),
            EventContent::JoinRules(c) => c.to_json(),
            EventContent::HistoryVisibility(c) => c.to_json(),
            EventContent::GuestAccess(c) => c.to_json(),
            EventContent::Name(c) => {
                let mut v = JsonValue::object();
                v.insert("name", JsonValue::text(c.name.as_str()));
                v
            },
            EventContent::Topic(c) => {
                let mut v = JsonValue::object();
                v.insert("topic", JsonValue::text(c.topic.as_str()));
                v
            },
            EventContent::PowerLevels(c) => c.to_json(),
            EventContent::Member(c) => c.to_json(),
            EventContent::Redaction(c) => {
                let mut v = JsonValue::object();
                insert_text(&mut v, "reason", &c.reason);
                v
            },
            EventContent::Unknown { content, .. } => content.duplicate(),
        }
    }

    /// Whether content of an event type with a form of its own has that form.
    pub fn is_well_labelled(&self) -> (r: bool)
        ensures
            r == self@.well_labelled(),
    {
        proof {
            if self@.kind() is Some {
                law_kind_names(self@.kind()->0);
            }
        }
        match self {
            EventContent::Unknown { ty, .. } => ContentKind::of(ty.as_str()).is_none(),
            _ => true,
        }
    }

    /// The content without what a redaction takes away.
    pub fn redact(self) -> (r: EventContent)
        ensures
            r@ == self@.redacted(),
    {
        match self {
            EventContent::Create(c) => EventContent::Create(
                Create {
                    creator: c.creator,
                    room_version: None,
                    predecessor: None,
                    extra: crate::dict::Dict::new(),
                },
            ),
            EventContent::JoinRules(c) => EventContent::JoinRules(c),
            EventContent::HistoryVisibility(c) => EventContent::HistoryVisibility(c),
            EventContent::PowerLevels(p) => {
                let mut q = p;
                q.invite = None;
                q.notifications = None;
                EventContent::PowerLevels(q)
            },
            EventContent::Member(m) => EventContent::Member(
                Member {
                    avatar_url: None,
                    displayname: None,
                    membership: m.membership,
                    is_direct: None,
                },
            ),
            EventContent::Redaction(_) => EventContent::Redaction(Redaction { reason: None }),
            EventContent::Unknown { ty, content } => {
                let mut kept = JsonValue::object();
                if same(ty.as_str(), "m.room.aliases") {
                    match content.get("aliases") {
                        Some(aliases) => kept.insert("aliases", aliases),
                        None => {},
                    }
                }
                EventContent::Unknown { ty, content: kept }
            },
            EventContent::GuestAccess(_) => EventContent::Unknown {
                ty: "m.room.guest_access".to_owned(),
                content: JsonValue::object(),
            },
            EventContent::Name(_) => EventContent::Unknown {
                ty: "m.room.name".to_owned(),
                content: JsonValue::object(),
            },
            EventContent::Topic(_) => EventContent::Unknown {
                ty: "m.room.topic".to_owned(),
                content: JsonValue::object(),
            },
        }
    }
}

/// A type of content that belongs to one event type.
pub trait EventType: View + Sized {
    /// The kind of content.
    spec fn kind() -> ContentKind;

    /// The value as content of an event.
    spec fn packed(value: Self::V) -> ContentView;

    /// Nothing is lost on the way into content.
    proof fn lemma_packed(a: Self::V, b: Self::V)
        ensures
            Self::packed(a).kind() == Some(Self::kind()),
            Self::packed(a) == Self::packed(b) ==> a == b,
    ;

    /// The name of the event type.
    fn event_type() -> (ty: &'static str)
        ensures
            ty@ == kind_name(Self::kind()),
    ;

    /// Takes the value out of the content of an event of that type.
    fn from_content(content: EventContent) -> (r: Result<Self, EventContent>)
        ensures
            match r {
                Ok(v) => content@ == Self::packed(v@),
                Err(c) => c == content && content@.kind() != Some(Self::kind()),
            },
    ;

    /// The value as content of an event.
    fn into_content(self) -> (c: EventContent)
        ensures
            c@ == Self::packed(self@),
    ;
}

impl EventType for Create {
    open spec fn kind() -> ContentKind {
        ContentKind::Create
    }

    open spec fn packed(value: CreateView) -> ContentView {
        ContentView::Create(value)
    }

    proof fn lemma_packed(a: CreateView, b: CreateView) {
    }

    fn event_type() -> (ty: &'static str) {
        "m.room.create"
    }

    fn from_content(content: EventContent) -> (r: Result<Self, EventContent>) {
        match content {
            EventContent::Create(v) => Ok(v),
            c => Err(c),
        }
    }

    fn into_content(self) -> (c: EventContent) {
        EventContent::Create(self)
    }
}

impl EventType for JoinRules {
    open spec fn kind() -> ContentKind {
        ContentKind::JoinRules
    }

    open spec fn packed(value: JoinRules) -> ContentView {
        ContentView::JoinRules(value)
    }

    proof fn lemma_packed(a: JoinRules, b: JoinRules) {
    }

    fn event_type() -> (ty: &'static str) {
        "m.room.join_rules"
    }

    fn from_content(content: EventContent) -> (r: Result<Self, EventContent>) {
        match content {
            EventContent::JoinRules(v) => Ok(v),
            c => Err(c),
        }
    }

    fn into_content(self) -> (c: EventContent) {
        EventContent::JoinRules(self)
    }
}

impl EventType for HistoryVisibility {
    open spec fn kind() -> ContentKind {
        ContentKind::HistoryVisibility
    }

    open spec fn packed(value: HistoryVisibility) -> ContentView {
        ContentView::HistoryVisibility(value)
    }

    proof fn lemma_packed(a: HistoryVisibility, b: HistoryVisibility) {
    }

    fn event_type() -> (ty: &'static str) {
        "m.room.history_visibility"
    }

    fn from_content(content: EventContent) -> (r: Result<Self, EventContent>) {
        match content {
            EventContent::HistoryVisibility(v) => Ok(v),
            c => Err(c),
        }
    }

    fn into_content(self) -> (c: EventContent) {
        EventContent::HistoryVisibility(self)
    }
}

impl EventType for GuestAccess {
    open spec fn kind() -> ContentKind {
        ContentKind::GuestAccess
    }

    open spec fn packed(value: GuestAccess) -> ContentView {
        ContentView::GuestAccess(value)
    }

    proof fn lemma_packed(a: GuestAccess, b: GuestAccess) {
    }

    fn event_type() -> (ty: &'static str) {
        "m.room.guest_access"
    }

    fn from_content(content: EventContent) -> (r: Result<Self, EventContent>) {
        match content {
            EventContent::GuestAccess(v) => Ok(v),
            c => Err(c),
        }
    }

    fn into_content(self) -> (c: EventContent) {
        EventContent::GuestAccess(self)
    }
}

impl EventType for Name {
    open spec fn kind() -> ContentKind {
        ContentKind::Name
    }

    open spec fn packed(value: Seq<char>) -> ContentView {
        ContentView::Name(value)
    }

    proof fn lemma_packed(a: Seq<char>, b: Seq<char>) {
    }

    fn event_type() -> (ty: &'static str) {
        "m.room.name"
    }

    fn from_content(content: EventContent) -> (r: Result<Self, EventContent>) {
        match content {
            EventContent::Name(v) => Ok(v),
            c => Err(c),
        }
    }

    fn into_content(self) -> (c: EventContent) {
        EventContent::Name(self)
    }
}

impl EventType for Topic {
    open spec fn kind() -> ContentKind {
        ContentKind::Topic
    }

    open spec fn packed(value: Seq<char>) -> ContentView {
        ContentView::Topic(value)
    }

    proof fn lemma_packed(a: Seq<char>, b: Seq<char>) {
    }

    fn event_type() -> (ty: &'static str) {
        "m.room.topic"
    }

    fn from_content(content: EventContent) -> (r: Result<Self, EventContent>) {
        match content {
            EventContent::Topic(v) => Ok(v),
            c => Err(c),
        }
    }

    fn into_content(self) -> (c: EventContent) {
        EventContent::Topic(self)
    }
}

impl EventType for PowerLevels {
    open spec fn kind() -> ContentKind {
        ContentKind::PowerLevels
    }

    open spec fn packed(value: PowerLevelsView) -> ContentView {
        ContentView::PowerLevels(value)
    }

    proof fn lemma_packed(a: PowerLevelsView, b: PowerLevelsView) {
    }

    fn event_type() -> (ty: &'static str) {
        "m.room.power_levels"
    }

    fn from_content(content: EventContent) -> (r: Result<Self, EventContent>) {
        match content {
            EventContent::PowerLevels(v) => Ok(v),
            c => Err(c),
        }
    }

    fn into_content(self) -> (c: EventContent) {
        EventContent::PowerLevels(self)
    }
}

impl EventType for Member {
    open spec fn kind() -> ContentKind {
        ContentKind::Member
    }

    open spec fn packed(value: MemberView) -> ContentView {
        ContentView::Member(value)
    }

    proof fn lemma_packed(a: MemberView, b: MemberView) {
    }

    fn event_type() -> (ty: &'static str) {
        "m.room.member"
    }

    fn from_content(content: EventContent) -> (r: Result<Self, EventContent>) {
        match content {
            EventContent::Member(v) => Ok(v),
            c => Err(c),
        }
    }

    fn into_content(self) -> (c: EventContent) {
        EventContent::Member(self)
    }
}

impl EventType for Redaction {
    open spec fn kind() -> ContentKind {
        ContentKind::Redaction
    }

    open spec fn packed(value: Option<Seq<char>>) -> ContentView {
        ContentView::Redaction(value)
    }

    proof fn lemma_packed(a: Option<Seq<char>>, b: Option<Seq<char>>) {
    }

    fn event_type() -> (ty: &'static str) {
        "m.room.redaction"
    }

    fn from_content(content: EventContent) -> (r: Result<Self, EventContent>) {
        match content {
            EventContent::Redaction(v) => Ok(v),
            c => Err(c),
        }
    }

    fn into_content(self) -> (c: EventContent) {
        EventContent::Redaction(self)
    }
}

/// An event as clients see it.
pub struct Event {
    pub event_content: EventContent,
    pub sender: MatrixId,
    /// Sometimes this is present outside this struct, in which case None is used
    pub room_id: Option<String>,
    pub state_key: Option<String>,
    pub unsigned: Option<JsonValue>,
    pub redacts: Option<String>,
    pub origin_server_ts: Option<i64>,
}

/// What an `Event` says.
pub struct EventView {
    pub content: ContentView,
    pub sender: Seq<char>,
    pub room_id: Option<Seq<char>>,
    pub state_key: Option<Seq<char>>,
    pub unsigned: Option<Json>,
    pub redacts: Option<Seq<char>>,
    pub origin_server_ts: Option<i64>,
}

/// What an optional JSON value says.
pub open spec fn json_opt(value: Option<JsonValue>) -> Option<Json> {
    match value {
        Some(v) => Some(v@),
        None => None,
    }
}

/// A copy of an optional JSON value.
pub fn copy_json_opt(value: &Option<JsonValue>) -> (copy: Option<JsonValue>)
    ensures
        json_opt(copy) == json_opt(*value),
{
    match value {
        Some(v) => Some(v.duplicate()),
        None => None,
    }
}

impl View for Event {
    type V = EventView;

    open spec fn view(&self) -> EventView {
        EventView {
            content: self.event_content@,
            sender: self.sender@,
            room_id: text_opt(self.room_id),
            state_key: text_opt(self.state_key),
            unsigned: json_opt(self.unsigned),
            redacts: text_opt(self.redacts),
            origin_server_ts: self.origin_server_ts,
        }
    }
}

/// Adds a member where there is a value.
pub open spec fn with_json(
    members: Map<Seq<char>, Json>,
    key: Seq<char>,
    value: Option<Json>,
) -> Map<Seq<char>, Json> {
    match value {
        Some(v) => members.insert(key, v),
        None => members,
    }
}

/// The JSON of an event for clients.
pub open spec fn event_json(e: EventView) -> Json {
    let named = with_text(
        with_json(
            with_text(
                with_text(
                    Map::<Seq<char>, Json>::empty().insert(
                        "type"@,
                        Json::Text(e.content.label()),
                    ).insert("content"@, e.content.json()).insert("sender"@, Json::Text(e.sender)),
                    "room_id"@,
                    e.room_id,
                ),
                "state_key"@,
                e.state_key,
            ),
            "unsigned"@,
            e.unsigned,
        ),
        "redacts"@,
        e.redacts,
    );
    Json::Object(
        match e.origin_server_ts {
            Some(ts) => named.insert("origin_server_ts"@, Json::Integer(ts as int)),
            None => named,
        },
    )
}

impl Event {
    /// The JSON of the event.
    pub fn to_json(&self) -> (v: JsonValue)
        ensures
            v@ == event_json(self@),
    {
        let mut v = JsonValue::object();
        v.insert("type", JsonValue::text(self.event_content.get_type()));
        v.insert("content", self.event_content.content_as_json());
        v.insert("sender", JsonValue::text(self.sender.as_str()));
        insert_text(&mut v, "room_id", &self.room_id);
        insert_text(&mut v, "state_key", &self.state_key);
        match &self.unsigned {
            Some(u) => v.insert("unsigned", u.duplicate()),
            None => {},
        }
        insert_text(&mut v, "redacts", &self.redacts);
        match self.origin_server_ts {
            Some(ts) => v.insert("origin_server_ts", JsonValue::integer(ts)),
            None => {},
        }
        v
    }
}

} // verus!
