//! Persistent data units for room version 4.
use crate::dict::{Dict, Duplicate};
use crate::events::room::insert_text;
use crate::events::{
    copy_json_opt, json_opt, with_json, ContentView, Event, EventContent, EventView,
};
use crate::json::{canonical_json, text_list, with_text, Json, JsonValue};
use crate::outside::{base64_text, base64_url, sha256, sha256_digest};
use crate::text::{copy_opt, copy_texts, text_opt, texts};
use crate::util::mxid::MatrixId;
use vstd::prelude::*;
use vstd::utf8::encode_utf8;

verus! {

/// An unhashed (incomplete) Persistent Data Unit for room version 4.
/// This can only be used to construct a complete, hashed PDU.
pub struct UnhashedPdu {
    pub event_content: EventContent,
    pub room_id: String,
    pub sender: MatrixId,
    pub state_key: Option<String>,
    pub unsigned: Option<JsonValue>,
    pub redacts: Option<String>,
    pub origin: String,
    pub origin_server_ts: i64,
    pub prev_events: Vec<String>,
    pub depth: i64,
    pub auth_events: Vec<String>,
}

/// A Persistent Data Unit (room event) for room version 4.
pub struct PduV4 {
    pub event_content: EventContent,
    pub room_id: String,
    pub sender: MatrixId,
    pub state_key: Option<String>,
    pub unsigned: Option<JsonValue>,
    pub redacts: Option<String>,
    pub origin: String,
    pub origin_server_ts: i64,
    pub prev_events: Vec<String>,
    pub depth: i64,
    pub auth_events: Vec<String>,
    pub hashes: EventHash,
    pub signatures: Option<Dict<String, JsonValue>>,
}

pub struct EventHash {
    pub sha256: String,
}

/// What an `UnhashedPdu` says.
#[verifier::ext_equal]
pub struct UnhashedView {
    pub content: ContentView,
    pub room_id: Seq<char>,
    pub sender: Seq<char>,
    pub state_key: Option<Seq<char>>,
    pub unsigned: Option<Json>,
    pub redacts: Option<Seq<char>>,
    pub origin: Seq<char>,
    pub origin_server_ts: i64,
    pub prev_events: Seq<Seq<char>>,
    pub depth: i64,
    pub auth_events: Seq<Seq<char>>,
}

/// What a `PduV4` says.
#[verifier::ext_equal]
pub struct PduView {
    pub content: ContentView,
    pub room_id: Seq<char>,
    pub sender: Seq<char>,
    pub state_key: Option<Seq<char>>,
    pub unsigned: Option<Json>,
    pub redacts: Option<Seq<char>>,
    pub origin: Seq<char>,
    pub origin_server_ts: i64,
    pub prev_events: Seq<Seq<char>>,
    pub depth: i64,
    pub auth_events: Seq<Seq<char>>,
    pub hash: Seq<char>,
    pub signatures: Option<Map<Seq<char>, Json>>,
}

pub open spec fn signatures_view(
    signatures: Option<Dict<String, JsonValue>>,
) -> Option<Map<Seq<char>, Json>> {
    match signatures {
        Some(d) => Some(d@),
        None => None,
    }
}

impl View for UnhashedPdu {
    type V = UnhashedView;

    open spec fn view(&self) -> UnhashedView {
        UnhashedView {
            content: self.event_content@,
            room_id: self.room_id@,
            sender: self.sender@,
            state_key: text_opt(self.state_key),
            unsigned: json_opt(self.unsigned),
            redacts: text_opt(self.redacts),
            origin: self.origin@,
            origin_server_ts: self.origin_server_ts,
            prev_events: texts(self.prev_events@),
            depth: self.depth,
            auth_events: texts(self.auth_events@),
        }
    }
}

impl View for PduV4 {
    type V = PduView;

    open spec fn view(&self) -> PduView {
        PduView {
            content: self.event_content@,
            room_id: self.room_id@,
            sender: self.sender@,
            state_key: text_opt(self.state_key),
            unsigned: json_opt(self.unsigned),
            redacts: text_opt(self.redacts),
            origin: self.origin@,
            origin_server_ts: self.origin_server_ts,
            prev_events: texts(self.prev_events@),
            depth: self.depth,
            auth_events: texts(self.auth_events@),
            hash: self.hashes.sha256@,
            signatures: signatures_view(self.signatures),
        }
    }
}

impl Duplicate for PduV4 {
    fn duplicate(&self) -> (copy: Self) {
        PduV4 {
            event_content: self.event_content.duplicate(),
            room_id: self.room_id.clone(),
            sender: self.sender.duplicate(),
            state_key: copy_opt(&self.state_key),
            unsigned: copy_json_opt(&self.unsigned),
            redacts: copy_opt(&self.redacts),
            origin: self.origin.clone(),
            origin_server_ts: self.origin_server_ts,
            prev_events: copy_texts(&self.prev_events),
            depth: self.depth,
            auth_events: copy_texts(&self.auth_events),
            hashes: EventHash { sha256: self.hashes.sha256.clone() },
            signatures: match &self.signatures {
                Some(d) => Some(d.duplicate()),
                None => None,
            },
        }
    }
}

/// The URL-safe base64 text of the SHA-256 digest of the canonical JSON of a value.
pub open spec fn json_hash(value: Json) -> Option<Seq<char>> {
    match canonical_json(value) {
        Some(text) => Some(base64_text(sha256_digest(encode_utf8(text)))),
        None => None,
    }
}

/// The members that hashed and unhashed data units share.
pub open spec fn core_members(
    content: ContentView,
    room_id: Seq<char>,
    sender: Seq<char>,
    state_key: Option<Seq<char>>,
    unsigned: Option<Json>,
    redacts: Option<Seq<char>>,
    origin: Seq<char>,
    origin_server_ts: i64,
    prev_events: Seq<Seq<char>>,
    depth: i64,
    auth_events: Seq<Seq<char>>,
) -> Map<Seq<char>, Json> {
    with_text(
        with_json(
            with_text(
                Map::<Seq<char>, Json>::empty().insert(
                    "type"@,
                    Json::Text(content.label()),
                ).insert("content"@, content.json()).insert("room_id"@, Json::Text(room_id)).insert(
                    "sender"@,
                    Json::Text(sender),
                ),
                "state_key"@,
                state_key,
            ),
            "unsigned"@,
            unsigned,
        ),
        "redacts"@,
        redacts,
    ).insert("origin"@, Json::Text(origin)).insert(
        "origin_server_ts"@,
        Json::Integer(origin_server_ts as int),
    ).insert("prev_events"@, text_list(prev_events)).insert(
        "depth"@,
        Json::Integer(depth as int),
    ).insert("auth_events"@, text_list(auth_events))
}

impl UnhashedView {
    /// The JSON of an unhashed data unit, without what is not signed.
    pub open spec fn json(self) -> Json {
        Json::Object(
            core_members(
                self.content,
                self.room_id,
                self.sender,
                self.state_key,
                None,
                self.redacts,
                self.origin,
                self.origin_server_ts,
                self.prev_events,
                self.depth,
                self.auth_events,
            ),
        )
    }

    /// The hashed data unit, where the JSON has a canonical text.
    pub open spec fn finalized(self) -> Option<PduView> {
        match json_hash(self.json()) {
            Some(hash) => Some(
                PduView {
                    content: self.content,
                    room_id: self.room_id,
                    sender: self.sender,
                    state_key: self.state_key,
                    unsigned: self.unsigned,
                    redacts: self.redacts,
                    origin: self.origin,
                    origin_server_ts: self.origin_server_ts,
                    prev_events: self.prev_events,
                    depth: self.depth,
                    auth_events: self.auth_events,
                    hash,
                    signatures: Some(Map::empty()),
                },
            ),
            None => None,
        }
    }
}

impl PduView {
    /// The JSON of a data unit.
    pub open spec fn json(self) -> Json {
        let members = core_members(
            self.content,
            self.room_id,
            self.sender,
            self.state_key,
            self.unsigned,
            self.redacts,
            self.origin,
            self.origin_server_ts,
            self.prev_events,
            self.depth,
            self.auth_events,
        ).insert("hashes"@, crate::events::room::single("sha256"@, Json::Text(self.hash)));
        Json::Object(
            match self.signatures {
                Some(s) => members.insert("signatures"@, Json::Object(s)),
                None => members,
            },
        )
    }

    /// The data unit without what a redaction takes away.
    pub open spec fn redacted(self) -> PduView {
        PduView { content: self.content.redacted(), unsigned: None, redacts: None, ..self }
    }

    /// The identifier of the event: a dollar sign and the hash of the redacted data unit without
    /// its signatures.
    pub open spec fn event_id(self) -> Option<Seq<char>> {
        match json_hash((PduView { signatures: None, ..self.redacted() }).json()) {
            Some(hash) => Some(seq!['$'] + hash),
            None => None,
        }
    }

    /// The event as clients see it.
    pub open spec fn client_format(self) -> EventView {
        EventView {
            content: self.content,
            sender: self.sender,
            room_id: Some(self.room_id),
            state_key: self.state_key,
            unsigned: self.unsigned,
            redacts: self.redacts,
            origin_server_ts: Some(self.origin_server_ts),
        }
    }
}

/// An event keeps its identifier when it is redacted, signed, or given other unsigned data.
pub proof fn law_event_id_survives(
    pdu: PduView,
    unsigned: Option<Json>,
    signatures: Option<Map<Seq<char>, Json>>,
)
    ensures
        pdu.redacted().event_id() == pdu.event_id(),
        (PduView { unsigned, ..pdu }).event_id() == pdu.event_id(),
        (PduView { signatures, ..pdu }).event_id() == pdu.event_id(),
{
    crate::events::law_redaction_idempotent(pdu.content);
    assert(pdu.redacted().redacted() == pdu.redacted());
    assert((PduView { signatures: None, ..(PduView { unsigned, ..pdu }).redacted() }) == (PduView {
        signatures: None,
        ..pdu.redacted()
    }));
    assert((PduView { signatures: None, ..(PduView { signatures, ..pdu }).redacted() }) == (
    PduView { signatures: None, ..pdu.redacted() }));
}

/// The URL-safe base64 text of the SHA-256 digest of the canonical JSON of a value.
fn hash_json(value: &JsonValue) -> (r: Option<String>)
    ensures
        text_opt(r) == json_hash(value@),
        r is Some ==> r->0@.len() == 43,
{
    match value.canonical() {
        Some(text) => {
            let digest = sha256(text.as_str().as_bytes());
            Some(base64_url(digest.as_slice()))
        },
        None => None,
    }
}

impl UnhashedPdu {
    /// The JSON of the unhashed data unit.
    pub fn to_json(&self) -> (v: JsonValue)
        ensures
            v@ == self@.json(),
    {
        let mut v = JsonValue::object();
        v.insert("type", JsonValue::text(self.event_content.get_type()));
        v.insert("content", self.event_content.content_as_json());
        v.insert("room_id", JsonValue::text(self.room_id.as_str()));
        v.insert("sender", JsonValue::text(self.sender.as_str()));
        insert_text(&mut v, "state_key", &self.state_key);
        insert_text(&mut v, "redacts", &self.redacts);
        v.insert("origin", JsonValue::text(self.origin.as_str()));
        v.insert("origin_server_ts", JsonValue::integer(self.origin_server_ts));
        v.insert("prev_events", JsonValue::text_array(&self.prev_events));
        v.insert("depth", JsonValue::integer(self.depth));
        v.insert("auth_events", JsonValue::text_array(&self.auth_events));
        v
    }

    /// Turns self into a hashed data unit by hashing its contents, where the contents have a
    /// canonical form.
    ///
    /// Does not add any signatures.
    pub fn try_finalize(self) -> (r: Option<PduV4>)
        ensures
            match r {
                Some(pdu) => self@.finalized() == Some(pdu@) && pdu@.hash.len() == 43,
                None => self@.finalized() is None,
            },
    {
        let json = self.to_json();
        match hash_json(&json) {
            Some(content_hash) => {
                let pdu = PduV4 {
                    event_content: self.event_content,
                    room_id: self.room_id,
                    sender: self.sender,
                    state_key: self.state_key,
                    unsigned: self.unsigned,
                    redacts: self.redacts,
                    origin: self.origin,
                    origin_server_ts: self.origin_server_ts,
                    prev_events: self.prev_events,
                    depth: self.depth,
                    auth_events: self.auth_events,
                    hashes: EventHash { sha256: content_hash },
                    signatures: Some(Dict::new()),
                };
                Some(pdu)
            },
            None => None,
        }
    }

    /// Turns self into a hashed data unit by hashing its contents.
    ///
    /// Does not add any signatures.
    pub fn finalize(self) -> (pdu: PduV4)
        requires
            self@.finalized() is Some,
        ensures
            self@.finalized() == Some(pdu@),
            pdu@.hash.len() == 43,
    {
        self.try_finalize().unwrap()
    }
}

impl PduV4 {
    /// The JSON of the data unit.
    pub fn to_json(&self) -> (v: JsonValue)
        ensures
            v@ == self@.json(),
    {
        let mut v = JsonValue::object();
        v.insert("type", JsonValue::text(self.event_content.get_type()));
        v.insert("content", self.event_content.content_as_json());
        v.insert("room_id", JsonValue::text(self.room_id.as_str()));
        v.insert("sender", JsonValue::text(self.sender.as_str()));
        insert_text(&mut v, "state_key", &self.state_key);
        match &self.unsigned {
            Some(u) => v.insert("unsigned", u.duplicate()),
            None => {},
        }
        insert_text(&mut v, "redacts", &self.redacts);
        v.insert("origin", JsonValue::text(self.origin.as_str()));
        v.insert("origin_server_ts", JsonValue::integer(self.origin_server_ts));
        v.insert("prev_events", JsonValue::text_array(&self.prev_events));
        v.insert("depth", JsonValue::integer(self.depth));
        v.insert("auth_events", JsonValue::text_array(&self.auth_events));
        let mut hashes = JsonValue::object();
        hashes.insert("sha256", JsonValue::text(self.hashes.sha256.as_str()));
        v.insert("hashes", hashes);
        match &self.signatures {
            Some(s) => {
                let mut w = JsonValue::object();
                w.insert_all(s);
                assert(w@->Object_0 =~= s@);
                v.insert("signatures", w);
            },
            None => {},
        }
        v
    }

    /// Turns a PDU into a format which is suitable for clients.
    pub fn to_client_format(self) -> (e: Event)
        ensures
            e@ == self@.client_format(),
    {
        Event {
            event_content: self.event_content,
            room_id: Some(self.room_id),
            sender: self.sender,
            state_key: self.state_key,
            unsigned: self.unsigned,
            redacts: self.redacts,
            origin_server_ts: Some(self.origin_server_ts),
        }
    }

    /// Takes away what a redaction takes away.
    pub fn redact(self) -> (r: Self)
        ensures
            r@ == self@.redacted(),
    {
        PduV4 {
            event_content: self.event_content.redact(),
            room_id: self.room_id,
            sender: self.sender,
            state_key: self.state_key,
            unsigned: None,
            redacts: None,
            origin: self.origin,
            origin_server_ts: self.origin_server_ts,
            prev_events: self.prev_events,
            depth: self.depth,
            auth_events: self.auth_events,
            hashes: self.hashes,
            signatures: self.signatures,
        }
    }

    /// The identifier of the event, where the redacted data unit has a canonical form.
    pub fn try_event_id(&self) -> (r: Option<String>)
        ensures
            text_opt(r) == self@.event_id(),
            r is Some ==> r->0@.len() == 44,
    {
        let mut redacted = self.duplicate().redact();
        redacted.signatures = None;
        // age_ts doesn't exist, and redact() already took unsigned away
        let json = redacted.to_json();
        match hash_json(&json) {
            Some(hash) => {
                let mut event_id: String = String::new();
                event_id.push('$');
                event_id.append(hash.as_str());
                assert(event_id@ =~= seq!['$'] + hash@);
                Some(event_id)
            },
            None => None,
        }
    }

    /// The identifier of the event.
    pub fn event_id(&self) -> (id: String)
        requires
            self@.event_id() is Some,
        ensures
            self@.event_id() == Some(id@),
    {
        self.try_event_id().unwrap()
    }
}

} // verus!
