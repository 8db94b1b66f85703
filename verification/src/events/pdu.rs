//! Events as they are stored.
use crate::dict::Duplicate;
use crate::events::room_version::v4::PduView;
use crate::events::room_version::{json_ref, str_opt, VersionedPdu};
use crate::events::{Event, EventContent};
use crate::json::JsonValue;
use crate::text::texts;
use crate::util::mxid::MatrixId;
use crate::validate::auth::AuthStatus;
use vstd::prelude::*;

verus! {

/// An event with its identifier and whether it was allowed. Its content has the form that belongs
/// to its type.
pub struct StoredPdu {
    inner: VersionedPdu,
    auth_status: AuthStatus,
    event_id: String,
}

/// What a `StoredPdu` says.
#[verifier::ext_equal]
pub struct StoredView {
    pub pdu: PduView,
    pub passed: bool,
}

impl StoredView {
    /// The identifier of the event.
    pub open spec fn id(self) -> Seq<char> {
        self.pdu.event_id()->0
    }

    /// A stored event has an identifier, and its content has the form that belongs to its type.
    pub open spec fn storable(self) -> bool {
        self.pdu.event_id() is Some && self.pdu.content.well_labelled()
    }
}

impl View for StoredPdu {
    type V = StoredView;

    closed spec fn view(&self) -> StoredView {
        StoredView { pdu: self.inner@, passed: self.auth_status == AuthStatus::Pass }
    }
}

impl Duplicate for StoredPdu {
    fn duplicate(&self) -> (copy: Self) {
        proof {
            use_type_invariant(self);
        }
        StoredPdu {
            inner: self.inner.duplicate(),
            auth_status: self.auth_status,
            event_id: self.event_id.clone(),
        }
    }
}

impl StoredPdu {
    #[verifier::type_invariant]
    spec fn well_formed(self) -> bool {
        self.inner@.event_id() == Some(self.event_id@) && self.inner@.content.well_labelled()
    }

    /// Makes an event ready to be stored. Nothing comes of one without an identifier, or whose
    /// content lacks the form that belongs to its type.
    pub fn new(inner: VersionedPdu, auth_status: AuthStatus) -> (r: Option<Self>)
        ensures
            match r {
                Some(s) => s@ == (StoredView {
                    pdu: inner@,
                    passed: auth_status == AuthStatus::Pass,
                }) && s@.storable(),
                None => !(StoredView {
                    pdu: inner@,
                    passed: auth_status == AuthStatus::Pass,
                }).storable(),
            },
    {
        if !inner.event_content().is_well_labelled() {
            return None;
        }
        match inner.try_event_id() {
            Some(event_id) => Some(StoredPdu { inner, auth_status, event_id }),
            None => None,
        }
    }

    pub fn did_pass_auth(&self) -> (r: bool)
        ensures
            r == self@.passed,
    {
        self.auth_status == AuthStatus::Pass
    }

    pub fn inner(&self) -> (pdu: &VersionedPdu)
        ensures
            pdu@ == self@.pdu,
            self@.storable(),
    {
        proof {
            use_type_invariant(self);
        }
        &self.inner
    }

    pub fn to_client_format(self) -> (e: Event)
        ensures
            e@ == self@.pdu.client_format(),
    {
        self.inner.to_client_format()
    }

    pub fn event_content(&self) -> (c: &EventContent)
        ensures
            c@ == self@.pdu.content,
            self@.storable(),
    {
        proof {
            use_type_invariant(self);
        }
        self.inner.event_content()
    }

    pub fn room_id(&self) -> (s: &str)
        ensures
            s@ == self@.pdu.room_id,
    {
        self.inner.room_id()
    }

    pub fn sender(&self) -> (id: &MatrixId)
        ensures
            id@ == self@.pdu.sender,
    {
        self.inner.sender()
    }

    pub fn state_key(&self) -> (k: Option<&str>)
        ensures
            str_opt(k) == self@.pdu.state_key,
    {
        self.inner.state_key()
    }

    pub fn unsigned(&self) -> (u: Option<&JsonValue>)
        ensures
            json_ref(u) == self@.pdu.unsigned,
    {
        self.inner.unsigned()
    }

    pub fn redacts(&self) -> (s: Option<&str>)
        ensures
            str_opt(s) == self@.pdu.redacts,
    {
        self.inner.redacts()
    }

    pub fn origin(&self) -> (s: &str)
        ensures
            s@ == self@.pdu.origin,
    {
        self.inner.origin()
    }

    pub fn origin_server_ts(&self) -> (ts: i64)
        ensures
            ts == self@.pdu.origin_server_ts,
    {
        self.inner.origin_server_ts()
    }

    pub fn prev_events(&self) -> (ids: &Vec<String>)
        ensures
            texts(ids@) == self@.pdu.prev_events,
    {
        self.inner.prev_events()
    }

    pub fn auth_events(&self) -> (ids: &Vec<String>)
        ensures
            texts(ids@) == self@.pdu.auth_events,
    {
        self.inner.auth_events()
    }

    pub fn depth(&self) -> (d: i64)
        ensures
            d == self@.pdu.depth,
    {
        self.inner.depth()
    }

    /// The identifier of the event.
    pub fn event_id(&self) -> (id: &str)
        ensures
            id@ == self@.id(),
            self@.storable(),
    {
        proof {
            use_type_invariant(self);
        }
        self.event_id.as_str()
    }
}

} // verus!
