//! Creating rooms and getting into them.
use crate::client::auth::AccessToken;
use crate::client::room::{
    answer_view, create_draft, draft_create, draft_setup, draft_views, invite_at, invites,
    join_answer, join_by_id_or_alias_at, joins, name_room, room_id_of, setup_drafts,
    version_supported, DraftView, StateEvent,
};
use crate::dict::{Dict, Duplicate};
use crate::error::{ErrorKind, ErrorView};
use crate::events::room::single;
use crate::json::{Json, JsonValue};
use crate::outside::{now_millis, random_u64};
use crate::server::{caller_of, ServerState};
use crate::state::growth::at_home;
use crate::state::resolver::StateResolver;
use crate::storage::{add_one, db_failed, RoomView, Storage, StorageView};
use crate::text::same;
use crate::util::mxid::{mxid_of, MatrixId};
use crate::util::storage::{
    add_event_at, drafted, drafted_first, start_room_at, NewEvent, NewEventView,
};
use vstd::prelude::*;

pub use crate::client::room::{
    CreateRoomRequest, Invite3pid, InviteRequest, Preset, RoomVisibility,
};

verus! {

/// How far the events of a new room got.
pub enum Progress {
    /// All were stored.
    Done,
    /// Nothing could be stored of one.
    Stuck,
    /// The content of one could not be read.
    Fault(ErrorView),
}

/// What is sent of a draft.
pub open spec fn sent(draft: DraftView, sender: Seq<char>) -> NewEventView {
    NewEventView {
        content: draft.content->Ok_0,
        sender,
        state_key: Some(draft.state_key),
        redacts: None,
        unsigned: None,
    }
}

/// The rooms after some events were added to one, each held against the state after those before
/// it, up to the first that cannot be added.
pub open spec fn added(
    rooms: Map<Seq<char>, RoomView>,
    room: Seq<char>,
    drafts: Seq<DraftView>,
    sender: Seq<char>,
    now: i64,
) -> (Map<Seq<char>, RoomView>, Progress)
    decreases drafts.len(),
{
    if drafts.len() == 0 {
        (rooms, Progress::Done)
    } else {
        match drafts[0].content {
            Err(e) => (rooms, Progress::Fault(e)),
            Ok(_) => match drafted(rooms, room, sent(drafts[0], sender), now) {
                None => (rooms, Progress::Stuck),
                Some(stored) => added(
                    add_one(rooms, stored)->0,
                    room,
                    drafts.drop_first(),
                    sender,
                    now,
                ),
            },
        }
    }
}

/// Adds events to a room, each held against the state after those before it, up to the first that
/// cannot be added; whether all were.
fn add_all_drafts<S: Storage>(
    db: &mut S,
    state_resolver: &mut StateResolver,
    room_id: &str,
    drafts: Vec<StateEvent>,
    sender: &MatrixId,
    now: i64,
) -> (r: Result<bool, ErrorKind>)
    requires
        at_home(old(db)@.rooms),
        old(state_resolver).valid(old(db)@.rooms),
        old(db)@.rooms.contains_key(room_id@),
    ensures
        final(db).reliable() == old(db).reliable(),
        !db_failed(r) ==> at_home(final(db)@.rooms) && final(state_resolver).valid(
            final(db)@.rooms,
        ),
        db_failed(r) ==> !old(db).reliable(),
        !db_failed(r) ==> {
            let end = added(old(db)@.rooms, room_id@, draft_views(drafts@), sender@, now);
            &&& final(db)@ == (StorageView { rooms: end.0, ..old(db)@ })
            &&& match end.1 {
                Progress::Done => r is Ok && r->Ok_0,
                Progress::Stuck => r is Ok && !r->Ok_0,
                Progress::Fault(e) => r is Err && r->Err_0@ == e,
            }
        },
{
    let ghost start = db@;
    let ghost all = draft_views(drafts@);
    let ghost total = drafts@.len() as int;
    let mut rest = drafts;
    let mut reversed: Vec<StateEvent> = Vec::new();
    while rest.len() > 0
        invariant
            total == all.len(),
            rest@.len() + reversed@.len() == total,
            forall|j: int| 0 <= j < rest@.len() ==> (#[trigger] rest@[j])@ == all[j],
            forall|j: int|
                0 <= j < reversed@.len() ==> (#[trigger] reversed@[j])@ == all[total - 1 - j],
        decreases rest@.len(),
    {
        let next = rest.pop().unwrap();
        reversed.push(next);
    }
    assert(all.skip(0) =~= all);
    while reversed.len() > 0
        invariant
            all == draft_views(drafts@),
            total == all.len(),
            reversed@.len() <= total,
            forall|j: int|
                0 <= j < reversed@.len() ==> (#[trigger] reversed@[j])@ == all[total - 1 - j],
            start == old(db)@,
            db.reliable() == old(db).reliable(),
            at_home(db@.rooms),
            state_resolver.valid(db@.rooms),
            db@.rooms.contains_key(room_id@),
            db@ == (StorageView { rooms: db@.rooms, ..start }),
            added(start.rooms, room_id@, all, sender@, now) == added(
                db@.rooms,
                room_id@,
                all.skip(total - reversed@.len()),
                sender@,
                now,
            ),
        decreases reversed@.len(),
    {
        let ghost i = total - reversed@.len();
        let next = reversed.pop().unwrap();
        proof {
            assert(next@ == all[i]);
            assert(all.skip(i)[0] == all[i]);
            assert(all.skip(i).drop_first() =~= all.skip(i + 1));
        }
        let content = match next.content {
            Ok(content) => content,
            Err(f) => return Err(ErrorKind::from_json_fault(f.fault, f.words)),
        };
        let event = NewEvent {
            event_content: content,
            sender: sender.duplicate(),
            state_key: Some(next.state_key),
            redacts: None,
            unsigned: None,
        };
        assert(event@ == sent(all[i], sender@));
        match add_event_at(db, room_id, event, state_resolver, now) {
            Ok(Some(_)) => {},
            Ok(None) => return Ok(false),
            Err(e) => return Err(e),
        }
    }
    assert(all.skip(total).len() == 0);
    Ok(true)
}

/// Whether a room was created as it should be: its events were added one after the other, up to the
/// first that could not be added.
pub open spec fn creates_room(
    r: Result<Option<JsonValue>, ErrorKind>,
    before: StorageView,
    after: StorageView,
    domain: Seq<char>,
    token: u128,
    req: CreateRoomRequest,
    number: u64,
    now: i64,
) -> bool {
    let room = room_id_of(number, domain);
    match caller_of(before, token) {
        Err(e) => r is Err && r->Err_0@ == e && after == before,
        Ok(name) => {
            let user = mxid_of(name, domain);
            if !version_supported(req) {
                r is Err && r->Err_0@ == ErrorView::UnsupportedRoomVersion && after == before
            } else {
                match drafted_first(
                    before.rooms,
                    room,
                    sent(create_draft(req, user), user),
                    now,
                ) {
                    None => r is Ok && r->Ok_0 is None && after == before,
                    Some(first) => {
                        let end = added(
                            add_one(before.rooms, first)->0,
                            room,
                            setup_drafts(req, user, before.users[name].profile, req.is_direct),
                            user,
                            now,
                        );
                        &&& after == (StorageView { rooms: end.0, ..before })
                        &&& match end.1 {
                            Progress::Done => r is Ok && r->Ok_0 is Some && r->Ok_0->0@ == single(
                                "room_id"@,
                                Json::Text(room),
                            ),
                            Progress::Stuck => r is Ok && r->Ok_0 is None,
                            Progress::Fault(e) => r is Err && r->Err_0@ == e,
                        }
                    },
                }
            }
        },
    }
}

/// Creates a room, named by a number, at a given time; `None` where nothing can be stored of one of
/// its events.
pub fn create_room_with<S: Storage>(
    state: &mut ServerState<S>,
    token: AccessToken,
    req: CreateRoomRequest,
    number: u64,
    now: i64,
) -> (r: Result<Option<JsonValue>, ErrorKind>)
    requires
        old(state).wf(),
    ensures
        final(state).config == old(state).config,
        final(state).db.reliable() == old(state).db.reliable(),
        !db_failed(r) ==> final(state).wf(),
        db_failed(r) ==> !old(state).db.reliable(),
        !db_failed(r) ==> creates_room(
            r,
            old(state).db@,
            final(state).db@,
            old(state).config.domain@,
            token@,
            req,
            number,
            now,
        ),
{
    let ghost before = state.db@;
    let ghost asked = req;
    let (username, user_id) = match state.identify(token.0) {
        Ok(found) => found,
        Err(e) => return Err(e),
    };
    let ghost user = user_id@;
    match &req.room_version {
        Some(version) => if !same(version.as_str(), "4") {
            return Err(ErrorKind::UnsupportedRoomVersion);
        },
        None => {},
    }
    let room_id = name_room(number, state.config.domain.as_str());
    let is_direct = req.is_direct;
    let mut req = req;
    let mut extra: Option<Dict<String, JsonValue>> = None;
    std::mem::swap(&mut extra, &mut req.creation_content);
    let first = NewEvent {
        event_content: draft_create(extra, &user_id),
        sender: user_id.duplicate(),
        state_key: Some("".to_owned()),
        redacts: None,
        unsigned: None,
    };
    assert(first@ == sent(create_draft(asked, user), user));
    match start_room_at(&mut state.db, room_id.as_str(), first, &mut state.state_resolver, now) {
        Ok(Some(_)) => {},
        Ok(None) => return Ok(None),
        Err(e) => return Err(e),
    }
    let profile = match state.db.get_profile(username.as_str()) {
        Ok(profile) => profile.unwrap(),
        Err(e) => return Err(e),
    };
    let drafts = draft_setup(req, &user_id, profile, is_direct);
    assert(draft_views(drafts@) == setup_drafts(
        asked,
        user,
        before.users[username@].profile,
        asked.is_direct,
    ));
    match add_all_drafts(
        &mut state.db,
        &mut state.state_resolver,
        room_id.as_str(),
        drafts,
        &user_id,
        now,
    ) {
        Ok(true) => {},
        Ok(false) => return Ok(None),
        Err(e) => return Err(e),
    }
    let mut answer = JsonValue::object();
    answer.insert("room_id", JsonValue::text(room_id.as_str()));
    assert(answer@->Object_0 =~= single("room_id"@, Json::Text(room_id@))->Object_0);
    Ok(Some(answer))
}

/// Creates a room; `None` where nothing can be stored of one of its events.
pub fn create_room<S: Storage>(
    state: &mut ServerState<S>,
    token: AccessToken,
    req: CreateRoomRequest,
) -> (r: Result<Option<JsonValue>, ErrorKind>)
    requires
        old(state).wf(),
    ensures
        final(state).config == old(state).config,
        final(state).db.reliable() == old(state).db.reliable(),
        !db_failed(r) ==> final(state).wf(),
        db_failed(r) ==> !old(state).db.reliable(),
        !db_failed(r) ==> exists|number: u64, now: i64| #[trigger]
            creates_room(
                r,
                old(state).db@,
                final(state).db@,
                old(state).config.domain@,
                token@,
                req,
                number,
                now,
            ),
{
    let number: u64 = random_u64();
    let now: i64 = now_millis();
    create_room_with(state, token, req, number, now)
}

/// Invites a user to a room, and answers with an empty object; `None` where nothing can be stored of
/// the invitation.
pub fn invite<S: Storage>(
    state: &mut ServerState<S>,
    token: AccessToken,
    room_id: &str,
    req: InviteRequest,
) -> (r: Result<Option<JsonValue>, ErrorKind>)
    requires
        old(state).wf(),
    ensures
        final(state).config == old(state).config,
        final(state).db.reliable() == old(state).db.reliable(),
        !db_failed(r) ==> final(state).wf(),
        db_failed(r) ==> !old(state).db.reliable(),
        !db_failed(r) ==> exists|now: i64, done: Result<bool, ErrorKind>|
            answer_view(r) == invite_answer(done) && #[trigger] invites(
                done,
                old(state).db@,
                final(state).db@,
                old(state).config.domain@,
                token@,
                room_id@,
                req.user_id@,
                now,
            ),
{
    let now: i64 = now_millis();
    match invite_at(state, token, room_id, req, now) {
        Ok(true) => Ok(Some(JsonValue::object())),
        Ok(false) => Ok(None),
        Err(e) => Err(e),
    }
}

/// What is answered to an invitation: an empty object, or nothing where nothing could be stored.
pub open spec fn invite_answer(r: Result<bool, ErrorKind>) -> Result<Option<Json>, ErrorView> {
    match r {
        Ok(true) => Ok(Some(Json::Object(Map::empty()))),
        Ok(false) => Ok(None),
        Err(e) => Err(e@),
    }
}

/// Lets a user into a room; `None` where nothing can be stored of it.
pub fn join_by_id_or_alias<S: Storage>(
    state: &mut ServerState<S>,
    token: AccessToken,
    room_id_or_alias: &str,
) -> (r: Result<Option<JsonValue>, ErrorKind>)
    requires
        old(state).wf(),
    ensures
        final(state).config == old(state).config,
        final(state).db.reliable() == old(state).db.reliable(),
        !db_failed(r) ==> final(state).wf(),
        db_failed(r) ==> !old(state).db.reliable(),
        !db_failed(r) ==> exists|now: i64, done: Result<bool, ErrorKind>|
            answer_view(r) == join_answer(done, room_id_or_alias@) && #[trigger] joins(
                done,
                old(state).db@,
                final(state).db@,
                old(state).config.domain@,
                token@,
                room_id_or_alias@,
                now,
            ),
{
    let now: i64 = now_millis();
    join_by_id_or_alias_at(state, token, room_id_or_alias, now)
}

} // verus!
