//! Persistent data units, by room version.
use crate::dict::Duplicate;
use crate::events::room_version::v4::{PduV4, PduView};
use crate::events::{Event, EventContent};
use crate::json::JsonValue;
use crate::text::{text_opt, texts};
use crate::util::mxid::MatrixId;
use vstd::prelude::*;

pub mod v4;

verus! {

/// A persistent data unit of some room version.
pub enum VersionedPdu {
    V4(PduV4),
}

impl View for VersionedPdu {
    type V = PduView;

    open spec fn view(&self) -> PduView {
        match self {
            VersionedPdu::V4(pdu) => pdu@,
        }
    }
}

impl Duplicate for VersionedPdu {
    fn duplicate(&self) -> (copy: Self) {
        match self {
            VersionedPdu::V4(pdu) => VersionedPdu::V4(pdu.duplicate()),
        }
    }
}

/// Whether an optional reference and an optional string hold the same.
pub open spec fn str_opt(s: Option<&str>) -> Option<Seq<char>> {
    match s {
        Some(t) => Some(t@),
        None => None,
    }
}

/// What an optional reference to a JSON value says.
pub open spec fn json_ref(v: Option<&JsonValue>) -> Option<crate::json::Json> {
    match v {
        Some(w) => Some(w@),
        None => None,
    }
}

/// Getter functions for all non-version-specific fields
impl VersionedPdu {
    pub fn event_content(&self) -> (c: &EventContent)
        ensures
            c@ == self@.content,
    {
        match self {
            VersionedPdu::V4(pdu) => &pdu.event_content,
        }
    }

    pub fn room_id(&self) -> (s: &str)
        ensures
            s@ == self@.room_id,
    {
        match self {
            VersionedPdu::V4(pdu) => pdu.room_id.as_str(),
        }
    }

    pub fn sender(&self) -> (id: &MatrixId)
        ensures
            id@ == self@.sender,
    {
        match self {
            VersionedPdu::V4(pdu) => &pdu.sender,
        }
    }

    pub fn state_key(&self) -> (k: Option<&str>)
        ensures
            str_opt(k) == self@.state_key,
    {
        match self {
            VersionedPdu::V4(pdu) => match &pdu.state_key {
                Some(k) => Some(k.as_str()),
                None => None,
            },
        }
    }

    pub fn unsigned(&self) -> (u: Option<&JsonValue>)
        ensures
            json_ref(u) == self@.unsigned,
    {
        match self {
            VersionedPdu::V4(pdu) => pdu.unsigned.as_ref(),
        }
    }

    pub fn redacts(&self) -> (s: Option<&str>)
        ensures
            str_opt(s) == self@.redacts,
    {
        match self {
            VersionedPdu::V4(pdu) => match &pdu.redacts {
                Some(k) => Some(k.as_str()),
                None => None,
            },
        }
    }

    pub fn origin(&self) -> (s: &str)
        ensures
            s@ == self@.origin,
    {
        match self {
            VersionedPdu::V4(pdu) => pdu.origin.as_str(),
        }
    }

    pub fn origin_server_ts(&self) -> (ts: i64)
        ensures
            ts == self@.origin_server_ts,
    {
        match self {
            VersionedPdu::V4(pdu) => pdu.origin_server_ts,
        }
    }

    pub fn prev_events(&self) -> (ids: &Vec<String>)
        ensures
            texts(ids@) == self@.prev_events,
    {
        match self {
            VersionedPdu::V4(pdu) => &pdu.prev_events,
        }
    }

    pub fn auth_events(&self) -> (ids: &Vec<String>)
        ensures
            texts(ids@) == self@.auth_events,
    {
        match self {
            VersionedPdu::V4(pdu) => &pdu.auth_events,
        }
    }

    pub fn depth(&self) -> (d: i64)
        ensures
            d == self@.depth,
    {
        match self {
            VersionedPdu::V4(pdu) => pdu.depth,
        }
    }

    /// The identifier of the event.
    pub fn event_id(&self) -> (id: String)
        requires
            self@.event_id() is Some,
        ensures
            self@.event_id() == Some(id@),
    {
        match self {
            VersionedPdu::V4(pdu) => pdu.event_id(),
        }
    }

    /// The identifier of the event, where it has one.
    pub fn try_event_id(&self) -> (r: Option<String>)
        ensures
            text_opt(r) == self@.event_id(),
    {
        match self {
            VersionedPdu::V4(pdu) => pdu.try_event_id(),
        }
    }
}

/// Delegations to version-specific functionality
impl VersionedPdu {
    pub fn to_client_format(self) -> (e: Event)
        ensures
            e@ == self@.client_format(),
    {
        match self {
            VersionedPdu::V4(pdu) => pdu.to_client_format(),
        }
    }
}

} // verus!
