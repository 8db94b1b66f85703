//! The state of a room.
use crate::dict::{Dict, Duplicate};
use crate::error::ErrorKind;
use crate::events::pdu::{StoredPdu, StoredView};
use crate::events::{kind_name, ContentKind, ContentView, EventType};
use crate::storage::{db_failed, find_pdu, RoomView, Storage};
use vstd::prelude::*;

pub mod calls;
pub mod chain;
pub mod growth;
pub mod laws;
pub mod levels;
pub mod order;
pub mod outcome;
pub mod power;
pub mod resolver;
pub mod rules;

pub use crate::state::resolver::StateResolver;

verus! {

/// (event_type, state_key) -> event_id
pub struct State {
    pub(crate) room_id: String,
    pub(crate) map: Dict<(String, String), String>,
}

/// What a `State` says.
#[verifier::ext_equal]
pub struct StateView {
    pub room_id: Seq<char>,
    pub map: Map<(Seq<char>, Seq<char>), Seq<char>>,
}

impl View for State {
    type V = StateView;

    closed spec fn view(&self) -> StateView {
        StateView { room_id: self.room_id@, map: self.map@ }
    }
}

impl Duplicate for State {
    fn duplicate(&self) -> (copy: Self) {
        State { room_id: self.room_id.clone(), map: self.map.duplicate() }
    }
}

/// The state of a room in which nothing has happened.
pub open spec fn empty_state(room_id: Seq<char>) -> StateView {
    StateView { room_id, map: Map::empty() }
}

/// A state with a state event put into it.
pub open spec fn with_event(state: StateView, e: StoredView) -> StateView {
    StateView {
        map: state.map.insert((e.pdu.content.label(), e.pdu.state_key->0), e.id()),
        ..state
    }
}

/// The content of the state event of a kind with a key: nothing where the state has none. Where the
/// event that the state names is missing, or is of another kind, the state is broken.
pub open spec fn state_content(
    rooms: Map<Seq<char>, RoomView>,
    state: StateView,
    kind: ContentKind,
    key: Seq<char>,
) -> Option<Option<ContentView>> {
    if state.map.contains_key((kind_name(kind), key)) {
        match find_pdu(rooms, state.room_id, state.map[(kind_name(kind), key)]) {
            Some(e) => if e.pdu.content.kind() == Some(kind) {
                Some(Some(e.pdu.content))
            } else {
                None
            },
            None => None,
        }
    } else {
        Some(None)
    }
}

impl State {
    /// The state of a room in which nothing has happened.
    pub fn new(room_id: &str) -> (s: Self)
        ensures
            s@ == empty_state(room_id@),
    {
        State { room_id: room_id.to_owned(), map: Dict::new() }
    }

    /// The key for an event type and a state key.
    pub fn key(key_strs: (&str, &str)) -> (k: (String, String))
        ensures
            k@ == (key_strs.0@, key_strs.1@),
    {
        (key_strs.0.to_owned(), key_strs.1.to_owned())
    }

    /// The event for an event type and a state key.
    pub fn get(&self, key_strs: (&str, &str)) -> (r: Option<&str>)
        ensures
            match r {
                Some(id) => self@.map.contains_key((key_strs.0@, key_strs.1@)) && self@.map[(
                    key_strs.0@,
                    key_strs.1@,
                )] == id@,
                None => !self@.map.contains_key((key_strs.0@, key_strs.1@)),
            },
    {
        match self.map.get(&Self::key(key_strs)) {
            Some(id) => Some(id.as_str()),
            None => None,
        }
    }

    /// The content of the state event of a type with a key; `None` where the state is broken.
    pub fn try_get_content<T: EventType, S: Storage>(&self, db: &S, state_key: &str) -> (r: Result<
        Option<Option<T>>,
        ErrorKind,
    >)
        ensures
            match r {
                Ok(None) => state_content(db@.rooms, self@, T::kind(), state_key@) is None,
                Ok(Some(None)) => state_content(db@.rooms, self@, T::kind(), state_key@) == Some(
                    None::<ContentView>,
                ),
                Ok(Some(Some(v))) => state_content(db@.rooms, self@, T::kind(), state_key@) == Some(
                    Some(T::packed(v@)),
                ),
                Err(_) => db_failed(r) && !db.reliable(),
            },
    {
        match self.get((T::event_type(), state_key)) {
            Some(event_id) => match db.get_pdu(self.room_id.as_str(), event_id) {
                Ok(Some(event)) => {
                    let content = event.event_content().duplicate();
                    match T::from_content(content) {
                        Ok(v) => {
                            proof {
                                T::lemma_packed(v@, v@);
                            }
                            Ok(Some(Some(v)))
                        },
                        Err(_) => Ok(None),
                    }
                },
                Ok(None) => Ok(None),
                Err(e) => Err(e),
            },
            None => Ok(Some(None)),
        }
    }

    /// The content of the state event of a type with a key.
    pub fn get_content<T: EventType, S: Storage>(&self, db: &S, state_key: &str) -> (r: Result<
        Option<T>,
        ErrorKind,
    >)
        requires
            state_content(db@.rooms, self@, T::kind(), state_key@) is Some,
        ensures
            match r {
                Ok(None) => state_content(db@.rooms, self@, T::kind(), state_key@) == Some(
                    None::<ContentView>,
                ),
                Ok(Some(v)) => state_content(db@.rooms, self@, T::kind(), state_key@) == Some(
                    Some(T::packed(v@)),
                ),
                Err(_) => db_failed(r) && !db.reliable(),
            },
    {
        match self.try_get_content::<T, S>(db, state_key) {
            Ok(found) => Ok(found.unwrap()),
            Err(e) => Err(e),
        }
    }

    /// Puts a state event into the state.
    pub fn insert_event(&mut self, pdu: &StoredPdu)
        requires
            pdu@.pdu.state_key is Some,
        ensures
            final(self)@ == with_event(old(self)@, pdu@),
    {
        let key = pdu.state_key().unwrap().to_owned();
        let ty = pdu.event_content().get_type().to_owned();
        self.map.insert((ty, key), pdu.event_id().to_owned());
    }
}

} // verus!
