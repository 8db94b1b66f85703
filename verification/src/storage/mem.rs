//! A store in memory.
use crate::dict::{distinct_keys, has_key, lemma_map_of_entry, map_of, Dict, Duplicate, Key, KeySet};
use crate::error::{ErrorKind, ErrorView};
use crate::events::ephemeral::Typing;
use crate::events::pdu::{StoredPdu, StoredView};
use crate::events::{Event, EventContent, EventView};
use crate::json::JsonValue;
use crate::outside::{encoded_hash, hash_accepts};
use crate::storage::password::{draw_salt, PasswordHash};
use crate::storage::{
    add_all, add_one, answerable, appended, current_state, deadline, done_typing, draw_token,
    find_in, find_pdu, ids_at_depth, is_state_of, list_typing, matching, max_depth, new_room,
    new_user, query_answer, query_end, searched, still_typing, stored_views, with_typing,
    without_state, without_tokens_of, Batch, EventQuery, ProfileView, QueryType, RoomView, Storage,
    StorageView, UserProfile, UserView,
};
use crate::text::{same, texts};
use crate::util::mxid::MatrixId;
use vstd::prelude::*;
use vstd::utf8::encode_utf8;

verus! {

impl Duplicate for (u128, String) {
    fn duplicate(&self) -> (copy: Self) {
        (self.0, self.1.clone())
    }
}

impl Key for (u128, String) {
    fn same_key(&self, other: &Self) -> (r: bool) {
        self.0 == other.0 && self.1 == other.1
    }
}

/// What is kept of a room.
pub struct Room {
    events: Vec<StoredPdu>,
    ephemeral: Dict<String, JsonValue>,
    typing: Dict<MatrixId, u64>,
}

impl View for Room {
    type V = RoomView;

    closed spec fn view(&self) -> RoomView {
        RoomView {
            events: stored_views(self.events@),
            ephemeral: self.ephemeral@,
            typing: self.typing@,
        }
    }
}

impl Room {
    fn new() -> (room: Self)
        ensures
            room@ == new_room(),
    {
        let room = Room { events: Vec::new(), ephemeral: Dict::new(), typing: Dict::new() };
        assert(stored_views(room.events@) =~= Seq::<StoredView>::empty());
        room
    }

    /// The users whom a listing of everything names under `m.typing`: those whose time has run out.
    fn listed_typing(&self, now: u64) -> (t: Typing)
        ensures
            t@ == done_typing(self@.typing, now),
    {
        list_typing(&self.typing, now, true)
    }

    /// The users whom a question for `m.typing` alone names: those whose time has not run out.
    fn asked_typing(&self, now: u64) -> (t: Typing)
        ensures
            t@ == still_typing(self@.typing, now),
    {
        list_typing(&self.typing, now, false)
    }

    /// The event with an identifier.
    fn find(&self, event_id: &str) -> (r: Option<&StoredPdu>)
        ensures
            match r {
                Some(pdu) => find_in(self@.events, event_id@) == Some(pdu@),
                None => find_in(self@.events, event_id@) is None,
            },
    {
        let ghost all = self@.events;
        assert(all.skip(0) =~= all);
        for i in 0..self.events.len()
            invariant
                all == stored_views(self.events@),
                all == self@.events,
                find_in(all, event_id@) == find_in(all.skip(i as int), event_id@),
        {
            proof {
                assert(all.skip(i as int)[0] == self.events@[i as int]@);
                assert(all.skip(i as int).drop_first() =~= all.skip(i + 1));
            }
            if same(self.events[i].event_id(), event_id) {
                return Some(&self.events[i]);
            }
        }
        assert(all.skip(self.events@.len() as int).len() == 0);
        None
    }

    /// The greatest depth of the events.
    fn max_depth(&self) -> (d: i64)
        ensures
            d == max_depth(self@.events),
    {
        let ghost all = self@.events;
        if self.events.len() == 0 {
            return 0;
        }
        let mut d: i64 = self.events[0].depth();
        let mut i: usize = 1;
        assert(all.take(1).len() == 1);
        while i < self.events.len()
            invariant
                1 <= i <= self.events@.len(),
                all == stored_views(self.events@),
                d == max_depth(all.take(i as int)),
            decreases self.events@.len() - i,
        {
            proof {
                assert(all.take(i + 1).drop_last() =~= all.take(i as int));
                assert(all.take(i + 1).last() == self.events@[i as int]@);
            }
            let e = self.events[i].depth();
            if e > d {
                d = e;
            }
            i += 1;
        }
        assert(all.take(i as int) =~= all);
        d
    }

    /// The identifiers of the events at a depth.
    fn ids_at_depth(&self, depth: i64) -> (ids: Vec<String>)
        ensures
            texts(ids@) == ids_at_depth(self@.events, depth),
    {
        let ghost all = self@.events;
        let mut ids: Vec<String> = Vec::new();
        assert(texts(ids@) =~= ids_at_depth(all.take(0), depth));
        for i in 0..self.events.len()
            invariant
                all == stored_views(self.events@),
                texts(ids@) == ids_at_depth(all.take(i as int), depth),
        {
            proof {
                assert(all.take(i + 1).drop_last() =~= all.take(i as int));
                assert(all.take(i + 1).last() == self.events@[i as int]@);
            }
            let ghost before = texts(ids@);
            if self.events[i].depth() == depth {
                let id = self.events[i].event_id().to_owned();
                ids.push(id);
                assert(texts(ids@) =~= before.push(id@));
            }
        }
        assert(all.take(self.events@.len() as int) =~= all);
        ids
    }

    /// The most recent state events among the first ones.
    fn current_state(&self, count: usize) -> (state: Vec<StoredPdu>)
        requires
            count <= self@.events.len(),
        ensures
            stored_views(state@) == current_state(self@.events.take(count as int)),
    {
        let ghost all = self@.events;
        let mut state: Vec<StoredPdu> = Vec::new();
        assert(stored_views(state@) =~= current_state(all.take(0)));
        for i in 0..count
            invariant
                count <= self.events@.len(),
                all == stored_views(self.events@),
                stored_views(state@) == current_state(all.take(i as int)),
        {
            proof {
                assert(all.take(i + 1).drop_last() =~= all.take(i as int));
                assert(all.take(i + 1).last() == self.events@[i as int]@);
            }
            let e = &self.events[i];
            match e.state_key() {
                Some(key) => {
                    let mut kept = drop_state(state, e.event_content().get_type(), key);
                    let ghost before = stored_views(kept@);
                    kept.push(e.duplicate());
                    assert(stored_views(kept@) =~= before.push(e@));
                    state = kept;
                },
                None => {},
            }
        }
        state
    }
}

impl Room {
    /// A room in which some events have happened.
    pub fn with_events(events: Vec<StoredPdu>) -> (room: Self)
        ensures
            room@ == (RoomView { events: stored_views(events@), ..new_room() }),
    {
        Room { events, ephemeral: Dict::new(), typing: Dict::new() }
    }

    /// Answers a question for the events of the room, with the position up to which it looked.
    pub fn answer(&self, query: &EventQuery) -> (r: (Vec<StoredPdu>, usize))
        requires
            answerable(searched(self@.events, query@), query@),
        ensures
            stored_views(r.0@) == query_answer(self@.events, query@),
            r.1 == query_end(self@.events, query@),
    {
        let (from, given) = match query.query_type {
            QueryType::Timeline { from, to } => (from, to),
            QueryType::State { at, .. } => (0, at),
        };
        let len: usize = self.events.len();
        let end: usize = match given {
            Some(n) => n,
            None => if len == 0 {
                0
            } else {
                len - 1
            },
        };
        if end >= len {
            let none: Vec<StoredPdu> = Vec::new();
            assert(stored_views(none@) =~= Seq::<StoredView>::empty());
            return (none, end);
        }
        if query.query_type.is_timeline() {
            if from <= end {
                (pick(&self.events, from, end + 1, query), end)
            } else {
                let none: Vec<StoredPdu> = Vec::new();
                assert(stored_views(none@) =~= Seq::<StoredView>::empty());
                (none, end)
            }
        } else {
            let state = self.current_state(end + 1);
            let count: usize = state.len();
            proof {
                assert(stored_views(state@).subrange(0, count as int) =~= stored_views(state@));
            }
            (pick(&state, 0, count, query), end)
        }
    }
}

/// Takes away the state events of a type with a key.
fn drop_state(events: Vec<StoredPdu>, ty: &str, key: &str) -> (kept: Vec<StoredPdu>)
    ensures
        stored_views(kept@) == without_state(stored_views(events@), ty@, key@),
{
    let ghost all = stored_views(events@);
    let mut kept: Vec<StoredPdu> = Vec::new();
    assert(stored_views(kept@) =~= without_state(all.take(0), ty@, key@));
    for i in 0..events.len()
        invariant
            all == stored_views(events@),
            stored_views(kept@) == without_state(all.take(i as int), ty@, key@),
    {
        proof {
            assert(all.take(i + 1).drop_last() =~= all.take(i as int));
            assert(all.take(i + 1).last() == events@[i as int]@);
        }
        let e = &events[i];
        let replaced = match e.state_key() {
            Some(k) => same(k, key) && same(e.event_content().get_type(), ty),
            None => false,
        };
        assert(replaced == is_state_of(e@, ty@, key@));
        let ghost before = stored_views(kept@);
        if !replaced {
            kept.push(e.duplicate());
            assert(stored_views(kept@) =~= before.push(e@));
        }
    }
    assert(all.take(events@.len() as int) =~= all);
    kept
}

/// The events from `from` up to, and not including, `to` that a question asks for.
fn pick(events: &Vec<StoredPdu>, from: usize, to: usize, query: &EventQuery) -> (found: Vec<
    StoredPdu,
>)
    requires
        from <= to <= events@.len(),
        answerable(stored_views(events@).subrange(from as int, to as int), query@),
    ensures
        stored_views(found@) == matching(
            stored_views(events@).subrange(from as int, to as int),
            query@,
        ),
{
    let ghost all = stored_views(events@);
    let mut found: Vec<StoredPdu> = Vec::new();
    let mut i: usize = from;
    assert(stored_views(found@) =~= matching(all.subrange(from as int, from as int), query@));
    while i < to
        invariant
            from <= i <= to <= events@.len(),
            answerable(all.subrange(from as int, to as int), query@),
            all == stored_views(events@),
            stored_views(found@) == matching(all.subrange(from as int, i as int), query@),
        decreases to - i,
    {
        proof {
            assert(all.subrange(from as int, i + 1).drop_last() =~= all.subrange(
                from as int,
                i as int,
            ));
            assert(all.subrange(from as int, i + 1).last() == events@[i as int]@);
        }
        let ghost before = stored_views(found@);
        let e = &events[i];
        assert(all.subrange(from as int, to as int)[i - from] == e@);
        if query.matches(e.inner()) {
            found.push(e.duplicate());
            assert(stored_views(found@) =~= before.push(e@));
        }
        i += 1;
    }
    found
}

/// What is kept of a user.
pub struct User {
    password_hash: PasswordHash,
    profile: UserProfile,
    account_data: Dict<String, JsonValue>,
}

impl View for User {
    type V = UserView;

    closed spec fn view(&self) -> UserView {
        UserView {
            password_hash: self.password_hash@,
            profile: self.profile@,
            account_data: self.account_data@,
        }
    }
}

/// A store in memory. It never fails.
pub struct MemStorage {
    rooms: Dict<String, Room>,
    users: Dict<String, User>,
    access_tokens: Dict<u128, String>,
    batches: Dict<String, Batch>,
    txn_ids: KeySet<(u128, String)>,
}

impl MemStorage {
    /// An empty store.
    pub fn new() -> (db: Self)
        ensures
            db@ == (StorageView {
                users: Map::empty(),
                tokens: Map::empty(),
                txns: Set::empty(),
                batches: Map::empty(),
                rooms: Map::empty(),
            }),
            db.reliable(),
    {
        MemStorage {
            rooms: Dict::new(),
            users: Dict::new(),
            access_tokens: Dict::new(),
            batches: Dict::new(),
            txn_ids: KeySet::new(),
        }
    }

    /// Adds a user with a password, which is kept as a hash with a salt.
    pub fn create_user_with(&mut self, username: &str, password: &str, salt: &str) -> (r: Result<
        (),
        ErrorKind,
    >)
        ensures
            final(self).reliable() == old(self).reliable(),
            match r {
                Ok(_) => !old(self)@.users.contains_key(username@)
                    && encoded_hash(
                    encode_utf8(password@),
                    encode_utf8(salt@),
                ) is Some && hash_accepts(
                    encoded_hash(encode_utf8(password@), encode_utf8(salt@))->0,
                    encode_utf8(password@),
                ) == Some(true) && final(self)@ == (StorageView {
                    users: old(self)@.users.insert(
                        username@,
                        new_user(
                            encoded_hash(
                                encode_utf8(password@),
                                encode_utf8(salt@),
                            )->0,
                        ),
                    ),
                    ..old(self)@
                }),
                Err(e) => final(self)@ == old(self)@ && (if old(self)@.users.contains_key(
                    username@,
                ) {
                    e@ == ErrorView::UsernameTaken
                } else {
                    e@ is PasswordError && encoded_hash(
                        encode_utf8(password@),
                        encode_utf8(salt@),
                    ) is None
                }),
            },
            8 <= encode_utf8(salt@).len() <= u32::MAX && encode_utf8(password@).len() <= u32::MAX
                && !old(self)@.users.contains_key(username@) ==> r is Ok,
    {
        let name = username.to_owned();
        if self.users.contains(&name) {
            return Err(ErrorKind::UsernameTaken);
        }
        match PasswordHash::new(password, salt) {
            Ok(password_hash) => {
                self.users.insert(
                    name,
                    User {
                        password_hash,
                        profile: UserProfile::default(),
                        account_data: Dict::new(),
                    },
                );
                Ok(())
            },
            Err(e) => Err(e),
        }
    }

    /// Makes a given access token one of a user's.
    pub fn insert_access_token(&mut self, username: &str, token: u128) -> (r: Result<
        (),
        ErrorKind,
    >)
        ensures
            final(self).reliable() == old(self).reliable(),
            match r {
                Ok(_) => old(self)@.users.contains_key(username@) && final(self)@ == (StorageView {
                    tokens: old(self)@.tokens.insert(token, username@),
                    ..old(self)@
                }),
                Err(e) => e@ == ErrorView::UserNotFound && !old(self)@.users.contains_key(username@)
                    && final(self)@ == old(self)@,
            },
    {
        let name = username.to_owned();
        if !self.users.contains(&name) {
            return Err(ErrorKind::UserNotFound);
        }
        self.access_tokens.insert(token, name);
        Ok(())
    }

    /// The event with an identifier, without its room.
    pub fn get_event(&self, room_id: &str, event_id: &str) -> (r: Option<Event>)
        ensures
            crate::storage::event_opt(r) == (match find_pdu(self@.rooms, room_id@, event_id@) {
                Some(e) => Some(EventView { room_id: None, ..e.pdu.client_format() }),
                None => None,
            }),
    {
        match self.rooms.get(&room_id.to_owned()) {
            Some(room) => match room.find(event_id) {
                Some(pdu) => {
                    let mut event = pdu.duplicate().to_client_format();
                    event.room_id = None;
                    Some(event)
                },
                None => None,
            },
            None => None,
        }
    }

    fn add_pdu(&mut self, pdu: &StoredPdu) -> (r: Result<(), ErrorKind>)
        ensures
            final(self).reliable() == old(self).reliable(),
            match r {
                Ok(_) => add_one(old(self)@.rooms, pdu@) is Some && final(self)@ == (StorageView {
                    rooms: add_one(old(self)@.rooms, pdu@)->0,
                    ..old(self)@
                }),
                Err(e) => e@ == ErrorView::RoomNotFound && add_one(old(self)@.rooms, pdu@) is None
                    && final(self)@ == old(self)@,
            },
    {
        let room_id = pdu.room_id().to_owned();
        let is_create = match pdu.event_content() {
            EventContent::Create(_) => true,
            _ => false,
        };
        if is_create {
            self.rooms.insert(room_id, Room::new());
        }
        let r = self.append_pdu(pdu);
        assert(self@.rooms =~= add_one(old(self)@.rooms, pdu@)->0 || r is Err);
        r
    }
}
impl Storage for MemStorage {
    closed spec fn view(&self) -> StorageView {
        StorageView {
            users: self.users@,
            tokens: self.access_tokens@,
            txns: self.txn_ids@,
            batches: self.batches@,
            rooms: self.rooms@,
        }
    }

    open spec fn reliable(&self) -> bool {
        true
    }

    open spec fn listed_typing(typing: Map<Seq<char>, u64>, now: u64) -> Set<Seq<char>> {
        done_typing(typing, now)
    }

    open spec fn asked_typing(typing: Map<Seq<char>, u64>, now: u64) -> Option<Set<Seq<char>>> {
        Some(still_typing(typing, now))
    }

    fn create_user(&mut self, username: &str, password: &str) -> (r: Result<(), ErrorKind>) {
        let salt = draw_salt();
        self.create_user_with(username, password, salt.as_str())
    }

    fn verify_password(&self, username: &str, password: &str) -> (r: Result<bool, ErrorKind>) {
        match self.users.get(&username.to_owned()) {
            Some(user) => Ok(user.password_hash.accepts(password)),
            None => Ok(false),
        }
    }

    fn create_access_token(&mut self, username: &str, device_id: &str) -> (r: Result<
        u128,
        ErrorKind,
    >) {
        let token: u128 = draw_token();
        match self.insert_access_token(username, token) {
            Ok(()) => Ok(token),
            Err(e) => Err(e),
        }
    }

    fn delete_access_token(&mut self, token: u128) -> (r: Result<(), ErrorKind>) {
        let _gone = self.access_tokens.remove(&token);
        Ok(())
    }

    fn delete_all_access_tokens(&mut self, token: u128) -> (r: Result<(), ErrorKind>) {
        let ghost tokens = self.access_tokens@;
        let username = match self.access_tokens.get(&token) {
            Some(name) => name.clone(),
            None => return Ok(()),
        };
        let mut kept: Dict<u128, String> = Dict::new();
        let ghost listing = self.access_tokens.listing();
        let n: usize = self.access_tokens.len();
        for i in 0..n
            invariant
                n == listing.len(),
                listing == self.access_tokens.listing(),
                distinct_keys(listing),
                tokens == map_of(listing),
                forall|t: u128| #[trigger]
                    kept@.contains_key(t) <==> exists|j: int|
                        0 <= j < i && (#[trigger] listing[j]).0 == t && listing[j].1 != username@,
                forall|t: u128| #[trigger] kept@.contains_key(t) ==> kept@[t] == tokens[t],
        {
            let e = self.access_tokens.entry(i);
            if !same(e.1.as_str(), username.as_str()) {
                kept.insert(*e.0, e.1.clone());
            }
        }
        proof {
            assert forall|t: u128| #[trigger] kept@.contains_key(t) <==> without_tokens_of(
                tokens,
                token,
            ).contains_key(t) by {
                if kept@.contains_key(t) {
                    let j = choose|j: int|
                        0 <= j < n && (#[trigger] listing[j]).0 == t && listing[j].1 != username@;
                    lemma_map_of_entry(listing, j);
                }
                if tokens.contains_key(t) {
                    assert(has_key(listing, t));
                    let j = choose|j: int| 0 <= j < listing.len() && (#[trigger] listing[j]).0 == t;
                    lemma_map_of_entry(listing, j);
                }
            }
            assert(kept@ =~= without_tokens_of(tokens, token));
        }
        self.access_tokens = kept;
        Ok(())
    }

    fn try_auth(&self, token: u128) -> (r: Result<Option<String>, ErrorKind>) {
        match self.access_tokens.get(&token) {
            Some(name) => Ok(Some(name.clone())),
            None => Ok(None),
        }
    }

    fn record_txn(&mut self, token: u128, txn_id: String) -> (r: Result<bool, ErrorKind>) {
        Ok(self.txn_ids.insert((token, txn_id)))
    }

    fn get_profile(&self, username: &str) -> (r: Result<Option<UserProfile>, ErrorKind>) {
        match self.users.get(&username.to_owned()) {
            Some(user) => Ok(Some(user.profile.duplicate())),
            None => Ok(None),
        }
    }

    fn set_avatar_url(&mut self, username: &str, avatar_url: &str) -> (r: Result<(), ErrorKind>) {
        let name = username.to_owned();
        match self.users.remove(&name) {
            Some(user) => {
                let mut changed = user;
                changed.profile.avatar_url = Some(avatar_url.to_owned());
                self.users.insert(name, changed);
                proof {
                    assert(self@.users =~= crate::storage::with_profile(
                        old(self)@,
                        username@,
                        ProfileView {
                            avatar_url: Some(avatar_url@),
                            ..old(self)@.users[username@].profile
                        },
                    ).users);
                }
                Ok(())
            },
            None => {
                proof {
                    assert(self@.users =~= old(self)@.users);
                }
                Err(ErrorKind::UserNotFound)
            },
        }
    }

    fn set_display_name(&mut self, username: &str, display_name: &str) -> (r: Result<
        (),
        ErrorKind,
    >) {
        let name = username.to_owned();
        match self.users.remove(&name) {
            Some(user) => {
                let mut changed = user;
                changed.profile.displayname = Some(display_name.to_owned());
                self.users.insert(name, changed);
                proof {
                    assert(self@.users =~= crate::storage::with_profile(
                        old(self)@,
                        username@,
                        ProfileView {
                            displayname: Some(display_name@),
                            ..old(self)@.users[username@].profile
                        },
                    ).users);
                }
                Ok(())
            },
            None => {
                proof {
                    assert(self@.users =~= old(self)@.users);
                }
                Err(ErrorKind::UserNotFound)
            },
        }
    }

    fn add_pdus(&mut self, pdus: &Vec<StoredPdu>) -> (r: Result<(), ErrorKind>) {
        let ghost all = stored_views(pdus@);
        let ghost start = self@;
        assert(all.take(0).len() == 0);
        let mut i: usize = 0;
        while i < pdus.len()
            invariant
                i <= pdus@.len(),
                all == stored_views(pdus@),
                self.reliable() == old(self).reliable(),
                start == old(self)@,
                add_all(start.rooms, all.take(i as int)) is Some,
                self@ == (StorageView {
                    rooms: add_all(start.rooms, all.take(i as int))->0,
                    ..start
                }),
            decreases pdus@.len() - i,
        {
            proof {
                assert(all.take(i + 1).drop_last() =~= all.take(i as int));
                assert(all.take(i + 1).last() == pdus@[i as int]@);
            }
            match self.add_pdu(&pdus[i]) {
                Ok(()) => {},
                Err(e) => return Err(e),
            }
            i += 1;
        }
        assert(all.take(i as int) =~= all);
        Ok(())
    }

    fn append_pdu(&mut self, pdu: &StoredPdu) -> (r: Result<(), ErrorKind>) {
        let room_id = pdu.room_id().to_owned();
        match self.rooms.remove(&room_id) {
            Some(room) => {
                let mut changed = room;
                let ghost before = stored_views(changed.events@);
                changed.events.push(pdu.duplicate());
                proof {
                    assert(stored_views(changed.events@) =~= before.push(pdu@));
                }
                self.rooms.insert(room_id, changed);
                proof {
                    assert(self@.rooms =~= appended(old(self)@.rooms, pdu@));
                }
                Ok(())
            },
            None => {
                proof {
                    assert(self@.rooms =~= old(self)@.rooms);
                }
                Err(ErrorKind::RoomNotFound)
            },
        }
    }

    fn get_prev_events(&self, room_id: &str) -> (r: Result<(Vec<String>, i64), ErrorKind>) {
        match self.rooms.get(&room_id.to_owned()) {
            Some(room) => {
                let depth = room.max_depth();
                Ok((room.ids_at_depth(depth), depth))
            },
            None => Err(ErrorKind::RoomNotFound),
        }
    }

    fn query_pdus(&self, query: &EventQuery) -> (r: Result<(Vec<StoredPdu>, usize), ErrorKind>) {
        match self.rooms.get(&query.room_id.to_owned()) {
            Some(room) => Ok(room.answer(query)),
            None => Err(ErrorKind::RoomNotFound),
        }
    }

    fn get_rooms(&self) -> (r: Result<Vec<String>, ErrorKind>) {
        let mut ids: Vec<String> = Vec::new();
        let ghost listing = self.rooms.listing();
        let n: usize = self.rooms.len();
        for i in 0..n
            invariant
                n == listing.len(),
                listing == self.rooms.listing(),
                ids@.len() == i,
                forall|j: int| 0 <= j < i ==> (#[trigger] texts(ids@)[j]) == listing[j].0,
        {
            let ghost before = texts(ids@);
            let e = self.rooms.entry(i);
            ids.push(e.0.clone());
            assert(texts(ids@) =~= before.push(e.0@));
        }
        proof {
            assert(texts(ids@).no_duplicates());
            assert forall|k: Seq<char>| texts(ids@).to_set().contains(k)
                == self@.rooms.dom().contains(k) by {
                if texts(ids@).contains(k) {
                    let j = choose|j: int| 0 <= j < texts(ids@).len() && texts(ids@)[j] == k;
                    lemma_map_of_entry(listing, j);
                }
                if self@.rooms.contains_key(k) {
                    assert(has_key(listing, k));
                    let j = choose|j: int| 0 <= j < listing.len() && (#[trigger] listing[j]).0 == k;
                    assert(texts(ids@)[j] == k);
                }
            }
            assert(texts(ids@).to_set() =~= self@.rooms.dom());
        }
        Ok(ids)
    }

    fn get_pdu(&self, room_id: &str, event_id: &str) -> (r: Result<Option<StoredPdu>, ErrorKind>) {
        match self.rooms.get(&room_id.to_owned()) {
            Some(room) => match room.find(event_id) {
                Some(pdu) => Ok(Some(pdu.duplicate())),
                None => Ok(None),
            },
            None => Ok(None),
        }
    }

    fn get_all_ephemeral(&self, room_id: &str, now: u64) -> (r: Result<
        Dict<String, JsonValue>,
        ErrorKind,
    >) {
        match self.rooms.get(&room_id.to_owned()) {
            Some(room) => {
                let mut all = room.ephemeral.duplicate();
                all.insert("m.typing".to_owned(), room.listed_typing(now).to_json());
                assert(all@.remove("m.typing"@) =~= room@.ephemeral.remove("m.typing"@));
                Ok(all)
            },
            None => Err(ErrorKind::RoomNotFound),
        }
    }

    fn get_ephemeral(&self, room_id: &str, event_type: &str, now: u64) -> (r: Result<
        Option<JsonValue>,
        ErrorKind,
    >) {
        match self.rooms.get(&room_id.to_owned()) {
            Some(room) => {
                if same(event_type, "m.typing") {
                    return Ok(Some(room.asked_typing(now).to_json()));
                }
                match room.ephemeral.get(&event_type.to_owned()) {
                    Some(content) => Ok(Some(content.duplicate())),
                    None => Ok(None),
                }
            },
            None => Err(ErrorKind::RoomNotFound),
        }
    }

    fn set_ephemeral(
        &mut self,
        room_id: &str,
        event_type: &str,
        content: Option<JsonValue>,
    ) -> (r: Result<(), ErrorKind>) {
        let id = room_id.to_owned();
        match self.rooms.remove(&id) {
            Some(room) => {
                let mut changed = room;
                match content {
                    Some(c) => changed.ephemeral.insert(event_type.to_owned(), c),
                    None => {
                        let _gone = changed.ephemeral.remove(&event_type.to_owned());
                    },
                }
                let ghost after = changed@;
                self.rooms.insert(id, changed);
                proof {
                    assert(self@.rooms =~= old(self)@.rooms.insert(room_id@, after));
                }
                Ok(())
            },
            None => {
                proof {
                    assert(self@.rooms =~= old(self)@.rooms);
                }
                Err(ErrorKind::RoomNotFound)
            },
        }
    }

    fn set_typing(
        &mut self,
        room_id: &str,
        user_id: &MatrixId,
        is_typing: bool,
        timeout: u32,
        now: u64,
    ) -> (r: Result<(), ErrorKind>) {
        let id = room_id.to_owned();
        match self.rooms.remove(&id) {
            Some(room) => {
                let mut changed = room;
                if is_typing {
                    let until: u64 = if now <= u64::MAX - timeout as u64 {
                        now + timeout as u64
                    } else {
                        u64::MAX
                    };
                    changed.typing.insert(user_id.duplicate(), until);
                } else {
                    let _gone = changed.typing.remove(user_id);
                }
                let ghost after = changed@;
                self.rooms.insert(id, changed);
                proof {
                    assert(self@.rooms =~= old(self)@.rooms.insert(room_id@, after));
                }
                Ok(())
            },
            None => {
                proof {
                    assert(self@.rooms =~= old(self)@.rooms);
                }
                Err(ErrorKind::RoomNotFound)
            },
        }
    }

    fn get_user_account_data(&self, username: &str) -> (r: Result<
        Dict<String, JsonValue>,
        ErrorKind,
    >)
        ensures
            r is Ok,
    {
        match self.users.get(&username.to_owned()) {
            Some(user) => Ok(user.account_data.duplicate()),
            None => Ok(Dict::new()),
        }
    }

    fn get_batch(&self, id: &str) -> (r: Result<Option<Batch>, ErrorKind>) {
        match self.batches.get(&id.to_owned()) {
            Some(batch) => Ok(Some(batch.duplicate())),
            None => Ok(None),
        }
    }

    fn set_batch(&mut self, id: &str, batch: Batch) -> (r: Result<(), ErrorKind>) {
        self.batches.insert(id.to_owned(), batch);
        Ok(())
    }
}

/// A user who says that they are typing is shown so to those who ask until the time that they give is
/// over, and not after they have stopped; others are not touched.
pub proof fn law_typing_until(
    room: RoomView,
    user: Seq<char>,
    now: u64,
    timeout: u32,
    later: u64,
    other: Seq<char>,
)
    requires
        other != user,
    ensures
        ({
            let typing = with_typing(room, user, true, deadline(now, timeout)).typing;
            let stopped = with_typing(room, user, false, deadline(now, timeout)).typing;
            &&& still_typing(typing, later).contains(user) <==> later < deadline(now, timeout)
            &&& !still_typing(stopped, later).contains(user)
            &&& still_typing(typing, later).contains(other) == still_typing(
                room.typing,
                later,
            ).contains(other)
        }),
{
}

} // verus!
