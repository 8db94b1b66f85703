//! What a store gives back of what was put into it.
use crate::dict::Dict;
use crate::error::{ErrorKind, ErrorView};
use crate::events::ephemeral::says_typing;
use crate::events::pdu::{StoredPdu, StoredView};
use crate::events::room::Membership;
use crate::events::Event;
use crate::json::JsonValue;
use crate::outside::{hash_accepts, is_checkable};
use crate::storage::laws::{asked_for, law_answer};
use crate::storage::mem::MemStorage;
use crate::storage::password::PasswordHash;
use crate::storage::postgres::{
    handle_event, member_counts, prev_event_ids, CountRow, DepthRow, RowChange,
};
use crate::storage::sled::{plan_addition, starts_room, Addition, Depth, Ephemeral};
use crate::storage::{
    count_members, current_state, db_failed, find_pdu, latest_state, membership_of,
    query_after_wait, query_end, searched, should_wait, stored_views, Batch, EventQuery,
    QueryTypeView, Storage, StorageView, UserProfile,
};
use crate::text::texts;
use crate::util::laws::{at_depth, deepest};
use crate::util::mxid::MatrixId;
use vstd::prelude::*;
use vstd::utf8::encode_utf8;

verus! {

/// A user who is added has the password that they were added with, once; a name that is taken is not given
/// again.
pub proof fn law_user_kept<S: Storage>(
    db: &mut S,
    name: &str,
    password: &str,
    r: Result<(), ErrorKind>,
    checked: Result<bool, ErrorKind>,
    other: Seq<char>,
)
    requires
        call_ensures(S::create_user, (db, name, password), r),
        !db_failed(r),
        call_ensures(S::verify_password, (&*final(db), name, password), checked),
        !db_failed(checked),
    ensures
        old(db)@.users.contains_key(name@) ==> r is Err && r->Err_0@ == ErrorView::UsernameTaken,
        !old(db)@.users.contains_key(name@) && encode_utf8(password@).len() <= u32::MAX ==> r is Ok,
        r is Ok ==> checked == Ok::<bool, ErrorKind>(true),
        r is Err ==> final(db)@ == old(db)@,
        r is Ok ==> final(db)@.users[name@].profile.displayname is None
            && final(db)@.users[name@].profile.avatar_url is None,
        other != name@ ==> final(db)@.users.contains_key(other) == old(db)@.users.contains_key(other)
            && final(db)@.users[other] == old(db)@.users[other],
        final(db)@.tokens == old(db)@.tokens && final(db)@.rooms == old(db)@.rooms && final(db)@.txns
            == old(db)@.txns && final(db)@.batches == old(db)@.batches,
{
}

/// A password is that of a user exactly where their hash accepts it. Nobody has a password who is not known.
pub proof fn law_password_checked<S: Storage>(
    db: &S,
    name: &str,
    password: &str,
    r: Result<bool, ErrorKind>,
)
    requires
        call_ensures(S::verify_password, (db, name, password), r),
        r is Ok,
    ensures
        r->Ok_0 <==> db@.users.contains_key(name@) && hash_accepts(
            db@.users[name@].password_hash,
            encode_utf8(password@),
        ) == Some(true),
{
}

/// A token belongs to the user for whom it was made, until it is deleted.
pub proof fn law_token_kept<S: Storage>(
    db: &mut S,
    name: &str,
    device: &str,
    r: Result<u128, ErrorKind>,
    found: Result<Option<String>, ErrorKind>,
    other: u128,
)
    requires
        call_ensures(S::create_access_token, (db, name, device), r),
        !db_failed(r),
        r is Ok ==> call_ensures(S::try_auth, (&*final(db), r->Ok_0), found),
        !db_failed(found),
    ensures
        r is Ok <==> old(db)@.users.contains_key(name@),
        r is Err ==> r->Err_0@ == ErrorView::UserNotFound && final(db)@ == old(db)@,
        r is Ok ==> found is Ok && found->Ok_0 is Some && found->Ok_0->0@ == name@,
        r is Ok && other != r->Ok_0 ==> final(db)@.tokens.contains_key(other)
            == old(db)@.tokens.contains_key(other) && final(db)@.tokens[other]
            == old(db)@.tokens[other],
        final(db)@.users == old(db)@.users && final(db)@.rooms == old(db)@.rooms && final(db)@.txns
            == old(db)@.txns && final(db)@.batches == old(db)@.batches,
{
}

/// A token that was deleted belongs to nobody, and others still belong to whom they did.
pub proof fn law_token_deleted<S: Storage>(
    db: &mut S,
    token: u128,
    r: Result<(), ErrorKind>,
    other: u128,
    before: Result<Option<String>, ErrorKind>,
    found: Result<Option<String>, ErrorKind>,
)
    requires
        call_ensures(S::try_auth, (&*old(db), other), before),
        call_ensures(S::delete_access_token, (db, token), r),
        call_ensures(S::try_auth, (&*final(db), other), found),
        r is Ok && before is Ok && found is Ok,
    ensures
        other == token ==> found->Ok_0 is None,
        other != token ==> found->Ok_0 is Some == before->Ok_0 is Some && (found->Ok_0 is Some
            ==> found->Ok_0->0@ == before->Ok_0->0@),
        final(db)@.users == old(db)@.users && final(db)@.rooms == old(db)@.rooms && final(db)@.txns
            == old(db)@.txns && final(db)@.batches == old(db)@.batches,
{
}

/// When all tokens of a user are deleted, all and only theirs belong to nobody.
pub proof fn law_tokens_deleted<S: Storage>(
    db: &mut S,
    token: u128,
    r: Result<(), ErrorKind>,
    other: u128,
    own: Result<Option<String>, ErrorKind>,
    before: Result<Option<String>, ErrorKind>,
    found: Result<Option<String>, ErrorKind>,
)
    requires
        call_ensures(S::try_auth, (&*old(db), token), own),
        call_ensures(S::try_auth, (&*old(db), other), before),
        call_ensures(S::delete_all_access_tokens, (db, token), r),
        call_ensures(S::try_auth, (&*final(db), other), found),
        r is Ok && own is Ok && before is Ok && found is Ok,
    ensures
        found->Ok_0 is Some <==> before->Ok_0 is Some && !(own->Ok_0 is Some && own->Ok_0->0@
            == before->Ok_0->0@),
        found->Ok_0 is Some ==> found->Ok_0->0@ == before->Ok_0->0@,
        final(db)@.users == old(db)@.users && final(db)@.rooms == old(db)@.rooms && final(db)@.txns
            == old(db)@.txns && final(db)@.batches == old(db)@.batches,
{
}

/// A transaction of a token is new once, and each token has transactions of its own.
pub proof fn law_transaction_recorded<S: Storage>(
    db: &mut S,
    token: u128,
    txn_id: String,
    r: Result<bool, ErrorKind>,
    other: (u128, Seq<char>),
)
    requires
        call_ensures(S::record_txn, (db, token, txn_id), r),
        r is Ok,
    ensures
        r->Ok_0 <==> !old(db)@.txns.contains((token, txn_id@)),
        final(db)@.txns.contains((token, txn_id@)),
        other != (token, txn_id@) ==> final(db)@.txns.contains(other) == old(db)@.txns.contains(other),
        final(db)@.users == old(db)@.users && final(db)@.rooms == old(db)@.rooms && final(db)@.tokens
            == old(db)@.tokens && final(db)@.batches == old(db)@.batches,
{
}

/// The picture that is set is the one that is kept, and the name that is shown stays.
pub proof fn law_picture_kept<S: Storage>(
    db: &mut S,
    name: &str,
    url: &str,
    r: Result<(), ErrorKind>,
    found: Result<Option<UserProfile>, ErrorKind>,
    other: Seq<char>,
)
    requires
        call_ensures(S::set_avatar_url, (db, name, url), r),
        !db_failed(r),
        call_ensures(S::get_profile, (&*final(db), name), found),
        found is Ok,
    ensures
        r is Ok <==> old(db)@.users.contains_key(name@),
        r is Err ==> r->Err_0@ == ErrorView::UserNotFound && final(db)@ == old(db)@,
        r is Ok ==> found->Ok_0 is Some && found->Ok_0->0.avatar_url is Some
            && found->Ok_0->0.avatar_url->0@ == url@ && crate::text::text_opt(
            found->Ok_0->0.displayname,
        ) == old(db)@.users[name@].profile.displayname,
        r is Ok ==> final(db)@.users[name@].password_hash == old(db)@.users[name@].password_hash,
        other != name@ ==> final(db)@.users.contains_key(other) == old(db)@.users.contains_key(other)
            && final(db)@.users[other] == old(db)@.users[other],
        final(db)@.rooms == old(db)@.rooms && final(db)@.tokens == old(db)@.tokens,
{
}

/// The name to show that is set is the one that is kept, and the picture stays.
pub proof fn law_name_kept<S: Storage>(
    db: &mut S,
    name: &str,
    shown: &str,
    r: Result<(), ErrorKind>,
    found: Result<Option<UserProfile>, ErrorKind>,
    other: Seq<char>,
)
    requires
        call_ensures(S::set_display_name, (db, name, shown), r),
        !db_failed(r),
        call_ensures(S::get_profile, (&*final(db), name), found),
        found is Ok,
    ensures
        r is Ok <==> old(db)@.users.contains_key(name@),
        r is Err ==> r->Err_0@ == ErrorView::UserNotFound && final(db)@ == old(db)@,
        r is Ok ==> found->Ok_0 is Some && found->Ok_0->0.displayname is Some
            && found->Ok_0->0.displayname->0@ == shown@ && crate::text::text_opt(
            found->Ok_0->0.avatar_url,
        ) == old(db)@.users[name@].profile.avatar_url,
        r is Ok ==> final(db)@.users[name@].password_hash == old(db)@.users[name@].password_hash,
        other != name@ ==> final(db)@.users.contains_key(other) == old(db)@.users.contains_key(other)
            && final(db)@.users[other] == old(db)@.users[other],
        final(db)@.rooms == old(db)@.rooms && final(db)@.tokens == old(db)@.tokens,
{
}

/// An event that is added is at the end of its room, and is found there under its name.
pub proof fn law_event_kept<S: Storage>(
    db: &mut S,
    pdus: &Vec<StoredPdu>,
    r: Result<(), ErrorKind>,
    room_id: &str,
    id: &str,
    found: Result<Option<StoredPdu>, ErrorKind>,
)
    requires
        pdus@.len() == 1,
        call_ensures(S::add_pdus, (db, pdus), r),
        !db_failed(r),
        room_id@ == pdus@[0]@.pdu.room_id,
        id@ == pdus@[0]@.id(),
        find_pdu(old(db)@.rooms, room_id@, id@) is None,
        call_ensures(S::get_pdu, (&*final(db), room_id, id), found),
        found is Ok,
    ensures
        r is Ok <==> pdus@[0]@.pdu.content is Create || old(db)@.rooms.contains_key(room_id@),
        r is Err ==> r->Err_0@ == ErrorView::RoomNotFound && final(db)@ == old(db)@,
        r is Ok ==> found->Ok_0 is Some && found->Ok_0->0@ == pdus@[0]@,
        r is Ok ==> final(db)@.rooms[room_id@].events.last() == pdus@[0]@,
        r is Ok && !(pdus@[0]@.pdu.content is Create) ==> final(db)@.rooms[room_id@].events
            == old(db)@.rooms[room_id@].events.push(pdus@[0]@),
        final(db)@.users == old(db)@.users && final(db)@.tokens == old(db)@.tokens && final(db)@.txns
            == old(db)@.txns && final(db)@.batches == old(db)@.batches,
{
    let e = pdus@[0]@;
    let list = stored_views(pdus@);
    assert(list =~= seq![e]);
    crate::util::storage::lemma_add_single(old(db)@.rooms, e);
    crate::storage::laws::law_event_added(old(db)@.rooms, e, room_id@);
    if r is Ok {
        if e.pdu.content is Create {
            assert(seq![e][0] == e);
        } else {
            crate::state::growth::lemma_found_after_push(
                old(db)@.rooms[room_id@].events,
                e,
                id@,
            );
            crate::state::outcome::law_found_first(final(db)@.rooms[room_id@].events, id@);
            crate::state::outcome::law_found_first(old(db)@.rooms[room_id@].events, id@);
            let events = final(db)@.rooms[room_id@].events;
            assert(events[events.len() - 1] == e);
        }
    } else {
        let n = choose|n: int|
            0 <= n < pdus@.len() && (#[trigger] crate::storage::add_all(
                old(db)@.rooms,
                list.take(n),
            )) is Some && crate::storage::add_all(old(db)@.rooms, list.take(n + 1)) is None
                && final(db)@ == (StorageView {
                rooms: crate::storage::add_all(old(db)@.rooms, list.take(n))->0,
                ..old(db)@
            });
        assert(list.take(0) =~= Seq::<StoredView>::empty());
        assert(list.take(1) =~= list);
    }
}

/// The events that a new one follows are the deepest of the room.
pub proof fn law_deepest_found<S: Storage>(
    db: &S,
    room_id: &str,
    r: Result<(Vec<String>, i64), ErrorKind>,
)
    requires
        call_ensures(S::get_prev_events, (db, room_id), r),
        !db_failed(r),
    ensures
        r is Ok <==> db@.rooms.contains_key(room_id@),
        r is Err ==> r->Err_0@ == ErrorView::RoomNotFound,
        r is Ok && db@.rooms[room_id@].events.len() > 0 ==> deepest(
            db@.rooms[room_id@].events,
            r->Ok_0.1,
        ) && texts(r->Ok_0.0@) == at_depth(db@.rooms[room_id@].events, r->Ok_0.1),
{
    if r is Ok && db@.rooms[room_id@].events.len() > 0 {
        crate::storage::laws::law_greatest_depth(db@.rooms[room_id@].events);
        crate::storage::laws::law_ids_at_depth(db@.rooms[room_id@].events, r->Ok_0.1);
    }
}

/// A question is answered with those events among which it looks that are asked for, in their order.
pub proof fn law_question_answered<S: Storage>(
    db: &S,
    query: &EventQuery,
    r: Result<(Vec<StoredPdu>, usize), ErrorKind>,
    events: Result<(Vec<Event>, usize), ErrorKind>,
)
    requires
        call_ensures(S::query_pdus, (db, query), r),
        call_ensures(S::query_events, (db, query), events),
        !db_failed(r) && !db_failed(events),
    ensures
        r is Ok <==> db@.rooms.contains_key(query.room_id@),
        events is Ok <==> db@.rooms.contains_key(query.room_id@),
        r is Ok ==> stored_views(r->Ok_0.0@) == searched(
            db@.rooms[query.room_id@].events,
            query@,
        ).filter(|e: StoredView| asked_for(query@, e.pdu)),
        r is Ok ==> r->Ok_0.1 == query_end(db@.rooms[query.room_id@].events, query@),
        events is Ok ==> events->Ok_0.0@.len() == r->Ok_0.0@.len() && events->Ok_0.1 == r->Ok_0.1,
        events is Ok ==> forall|i: int|
            0 <= i < events->Ok_0.0@.len() ==> crate::client::sync_laws::shows_event(
                (#[trigger] events->Ok_0.0@[i])@,
                r->Ok_0.0@[i]@,
            ),
        r is Err ==> r->Err_0@ == ErrorView::RoomNotFound,
{
    if r is Ok {
        law_answer(db@.rooms[query.room_id@].events, query@);
        let stored = stored_views(r->Ok_0.0@);
        let shown = crate::storage::event_views(events->Ok_0.0@);
        assert(shown == crate::storage::client_events(stored));
        assert(shown.len() == stored.len());
        assert forall|i: int|
            0 <= i
                < events->Ok_0.0@.len() implies crate::client::sync_laws::shows_event(
            (#[trigger] events->Ok_0.0@[i])@,
            r->Ok_0.0@[i]@,
        ) by {
            assert(shown[i] == events->Ok_0.0@[i]@);
            assert(stored[i] == r->Ok_0.0@[i]@);
        }
    }
}

/// The rooms that are named are those that there are, each once.
pub proof fn law_rooms_found<S: Storage>(
    db: &S,
    r: Result<Vec<String>, ErrorKind>,
    room: Seq<char>,
)
    requires
        call_ensures(S::get_rooms, (db,), r),
        r is Ok,
    ensures
        texts(r->Ok_0@).no_duplicates(),
        texts(r->Ok_0@).contains(room) == db@.rooms.contains_key(room),
{
    assert(texts(r->Ok_0@).to_set().contains(room) == db@.rooms.dom().contains(room));
}

/// An ephemeral event that is set is the one that is kept, until it is taken away.
pub proof fn law_ephemeral_kept<S: Storage>(
    db: &mut S,
    room_id: &str,
    ty: &str,
    content: Option<JsonValue>,
    r: Result<(), ErrorKind>,
    now: u64,
    found: Result<Option<JsonValue>, ErrorKind>,
)
    requires
        ty@ != "m.typing"@,
        call_ensures(S::set_ephemeral, (db, room_id, ty, content), r),
        r is Ok,
        call_ensures(S::get_ephemeral, (&*final(db), room_id, ty, now), found),
        !db_failed(found),
    ensures
        found is Ok,
        content is None ==> found->Ok_0 is None,
        content is Some ==> found->Ok_0 is Some && found->Ok_0->0@ == content->0@,
        final(db)@.rooms[room_id@].events == old(db)@.rooms[room_id@].events,
        final(db)@.rooms[room_id@].typing == old(db)@.rooms[room_id@].typing,
        final(db)@.users == old(db)@.users && final(db)@.tokens == old(db)@.tokens,
{
}

/// A user who is typing is noted with the time at which that ends, and one who has stopped is not.
pub proof fn law_typing_kept<S: Storage>(
    db: &mut S,
    room_id: &str,
    user: &MatrixId,
    is_typing: bool,
    timeout: u32,
    now: u64,
    r: Result<(), ErrorKind>,
    other: Seq<char>,
)
    requires
        call_ensures(S::set_typing, (db, room_id, user, is_typing, timeout, now), r),
        !db_failed(r),
    ensures
        r is Ok <==> old(db)@.rooms.contains_key(room_id@),
        r is Err ==> final(db)@ == old(db)@,
        r is Ok ==> ({
            let before = old(db)@.rooms[room_id@];
            let after = final(db)@.rooms[room_id@];
            &&& after.typing.contains_key(user@) == is_typing
            &&& is_typing && now + timeout <= u64::MAX ==> after.typing[user@] == now + timeout
            &&& is_typing && now + timeout > u64::MAX ==> after.typing[user@] == u64::MAX
            &&& other != user@ ==> after.typing.contains_key(other) == before.typing.contains_key(
                other,
            ) && after.typing[other] == before.typing[other]
            &&& after.events == before.events && after.ephemeral == before.ephemeral
        }),
        final(db)@.users == old(db)@.users && final(db)@.tokens == old(db)@.tokens,
{
}

/// A batch that is set is the one that is kept under its name, and the others stay.
pub proof fn law_batch_kept<S: Storage>(
    db: &mut S,
    id: &str,
    batch: Batch,
    r: Result<(), ErrorKind>,
    found: Result<Option<Batch>, ErrorKind>,
    other: Seq<char>,
)
    requires
        call_ensures(S::set_batch, (db, id, batch), r),
        r is Ok,
        call_ensures(S::get_batch, (&*final(db), id), found),
        found is Ok,
    ensures
        found->Ok_0 is Some && found->Ok_0->0@ == batch@,
        other != id@ ==> final(db)@.batches.contains_key(other) == old(db)@.batches.contains_key(other)
            && final(db)@.batches[other] == old(db)@.batches[other],
        final(db)@.rooms == old(db)@.rooms && final(db)@.users == old(db)@.users && final(db)@.tokens
            == old(db)@.tokens && final(db)@.txns == old(db)@.txns,
{
}

/// Whoever asks of a room how a user stands to it, how many members it has, and what its state is, is told so.
pub proof fn law_room_read<S: Storage>(
    db: &S,
    user: &MatrixId,
    room_id: &str,
    ty: &str,
    key: &str,
    stands: Result<Option<Membership>, ErrorKind>,
    all: Result<Dict<String, Membership>, ErrorKind>,
    counts: Result<(usize, usize), ErrorKind>,
    state: Result<Vec<Event>, ErrorKind>,
    one: Result<Option<Event>, ErrorKind>,
)
    requires
        call_ensures(S::get_membership, (db, user, room_id), stands),
        call_ensures(S::get_memberships_by_user, (db, user), all),
        call_ensures(S::get_room_member_counts, (db, room_id), counts),
        call_ensures(S::get_full_state, (db, room_id), state),
        call_ensures(S::get_state_event, (db, room_id, ty, key), one),
        stands is Ok && all is Ok && counts is Ok && state is Ok && one is Ok,
    ensures
        ({
            let events = db@.rooms[room_id@].events;
            let known = current_state(events);
            &&& db@.rooms.contains_key(room_id@)
            &&& stands->Ok_0 == membership_of(events, user@)
            &&& all->Ok_0@.contains_key(room_id@) == stands->Ok_0 is Some
            &&& stands->Ok_0 is Some ==> all->Ok_0@[room_id@] == stands->Ok_0->0
            &&& counts->Ok_0.0 == count_members(known, Membership::Join)
            &&& counts->Ok_0.1 == count_members(known, Membership::Invite)
            &&& state->Ok_0@.len() == known.len()
            &&& forall|i: int|
                0 <= i < known.len() ==> crate::client::sync_laws::shows_event(
                    (#[trigger] state->Ok_0@[i])@,
                    known[i],
                )
            &&& one->Ok_0 is Some == latest_state(events, ty@, key@) is Some
            &&& one->Ok_0 is Some ==> crate::client::sync_laws::shows_event(
                one->Ok_0->0@,
                latest_state(events, ty@, key@)->0,
            )
        }),
{
    let events = db@.rooms[room_id@].events;
    let known = current_state(events);
    let shown = crate::storage::event_views(state->Ok_0@);
    assert(shown == crate::storage::client_events(known));
    assert(shown.len() == known.len());
    assert forall|i: int| 0 <= i < known.len() implies crate::client::sync_laws::shows_event(
        (#[trigger] state->Ok_0@[i])@,
        known[i],
    ) by {
        assert(shown[i] == state->Ok_0@[i]@);
    }
}

/// Only a question for the timeline that found nothing waits, where it is to, and then goes on from where it
/// ended.
pub proof fn law_question_waits(
    wait: bool,
    found: &Vec<StoredPdu>,
    query: EventQuery,
    r: bool,
    end: usize,
    next: EventQuery,
)
    requires
        call_ensures(should_wait, (wait, found, &query), r),
        call_ensures(query_after_wait, (query, end), next),
    ensures
        r <==> wait && found@.len() == 0 && query@.query_type is Timeline,
        next@.query_type == (QueryTypeView::Timeline { from: end, to: None }),
        next@.room_id == query@.room_id && next@.senders == query@.senders && next@.not_senders
            == query@.not_senders && next@.types == query@.types && next@.not_types
            == query@.not_types && next@.contains_json == query@.contains_json,
{
}

/// What is written down of an event in a store of ordered keys: its name is made of the room and its own, its
/// key comes right after the last, and it is one of the deepest events if none lies deeper.
pub proof fn law_addition_planned(
    pdu: &StoredPdu,
    last: Option<&[u8]>,
    depth: Option<Depth>,
    r: Option<Addition>,
)
    requires
        call_ensures(plan_addition, (pdu, last, depth), r),
        r is Some,
    ensures
        r->0.name@ == pdu@.pdu.room_id + "_"@ + pdu@.id(),
        last is None ==> r->0.key@ == seq![0u8, 0u8, 0u8, 0u8, 0u8],
        last is Some ==> crate::storage::sled::bytes_less(last->0@, r->0.key@),
        depth is None ==> r->0.depth.depth == pdu@.pdu.depth && r->0.depth.event_ids@ == set![
            pdu@.id(),
        ],
        depth is Some && depth->0.depth < pdu@.pdu.depth ==> r->0.depth.depth == pdu@.pdu.depth
            && r->0.depth.event_ids@ == set![pdu@.id()],
        depth is Some && depth->0.depth == pdu@.pdu.depth ==> r->0.depth.depth == pdu@.pdu.depth
            && r->0.depth.event_ids@ == depth->0.event_ids@.insert(pdu@.id()),
        depth is Some && depth->0.depth > pdu@.pdu.depth ==> r->0.depth.depth == depth->0.depth
            && r->0.depth.event_ids@ == depth->0.event_ids@,
{
    if last is Some {
        crate::storage::sled::law_next_key_follows(last->0@);
    } else {
        assert(r->0.key@ =~= seq![0u8, 0u8, 0u8, 0u8, 0u8]);
    }
}

/// A create event starts its room afresh, and every other event needs its room to be there.
pub proof fn law_room_cleared(pdu: &StoredPdu, known: bool, r: Result<bool, ErrorKind>)
    requires
        call_ensures(starts_room, (pdu, known), r),
    ensures
        r is Ok <==> pdu@.pdu.content is Create || known,
        r is Ok ==> (r->Ok_0 <==> pdu@.pdu.content is Create),
        r is Err ==> r->Err_0@ == ErrorView::RoomNotFound,
{
}

/// A relational store notes what an event says of members and rooms, and counts and finds by its rows.
pub proof fn law_rows_read(
    pdu: &StoredPdu,
    change: RowChange,
    rows: &Vec<CountRow>,
    counts: (i64, i64),
    depths: &Vec<DepthRow>,
    deepest_ids: Option<(i64, Vec<String>)>,
)
    requires
        call_ensures(handle_event, (pdu,), change),
        call_ensures(member_counts, (rows,), counts),
        call_ensures(prev_event_ids, (depths,), deepest_ids),
    ensures
        change@ == crate::storage::postgres::row_change(pdu@),
        counts.0 == crate::storage::postgres::count_in(rows@, "join"@),
        counts.1 == crate::storage::postgres::count_in(rows@, "invite"@),
        deepest_ids is None <==> depths@.len() == 0,
        deepest_ids is Some ==> (deepest_ids->0).0 == depths@.last().depth
            && (deepest_ids->0).1@.len() == depths@.len() && forall|i: int|
            0 <= i < depths@.len() ==> (#[trigger] (deepest_ids->0).1@[i])@ == depths@[i].event_id@,
{
    if deepest_ids is Some {
        let ids = texts((deepest_ids->0).1@);
        assert(ids.len() == depths@.len());
        assert forall|i: int| 0 <= i < depths@.len() implies (
        #[trigger] (deepest_ids->0).1@[i])@ == depths@[i].event_id@ by {
            assert(ids[i] == (deepest_ids->0).1@[i]@);
        }
    }
}

/// What is kept of a room only while the server runs is given back as it was put in.
pub proof fn law_fleeting_kept(
    e: &mut Ephemeral,
    ty: &str,
    content: Option<JsonValue>,
    now: u64,
    found: Option<JsonValue>,
)
    requires
        ty@ != "m.typing"@,
        call_ensures(Ephemeral::set, (e, ty, content), ()),
        call_ensures(Ephemeral::get, (&*final(e), ty, now), found),
    ensures
        content is None ==> found is None,
        content is Some ==> found is Some && found->0@ == content->0@,
        final(e).typing@ == old(e).typing@,
{
    assert(final(e)@.typing == final(e).typing@);
    assert(old(e)@.typing == old(e).typing@);
}

/// A hash that is made of a password accepts it, and is taken back as it was kept.
pub proof fn law_hash_kept(
    password: &str,
    r: Result<PasswordHash, ErrorKind>,
    accepted: bool,
    text: &str,
    stored: Option<String>,
    verified: bool,
)
    requires
        call_ensures(PasswordHash::salted, (password,), r),
        r is Ok,
        call_ensures(PasswordHash::accepts, (&r->Ok_0, password), accepted),
        call_ensures(PasswordHash::as_str, (&r->Ok_0,), text),
        stored is Some && stored->0@ == text@,
        call_ensures(PasswordHash::verify_stored, (stored, password), verified),
    ensures
        accepted,
        verified,
        text@ == r->Ok_0@,
{
}

/// A hash that was kept is taken as it is, where it can be checked, and accepts what it says it accepts.
pub proof fn law_hash_taken(
    text: String,
    r: Option<PasswordHash>,
    password: &str,
    verified: bool,
)
    requires
        call_ensures(PasswordHash::from_stored, (text,), r),
        call_ensures(PasswordHash::verify_stored, (Some(text), password), verified),
    ensures
        r is Some <==> is_checkable(text@),
        r is Some ==> r->0@ == text@,
        verified <==> is_checkable(text@) && hash_accepts(text@, encode_utf8(password@)) == Some(
            true,
        ),
{
}

/// The store in memory names under `m.typing` those whose time has run out when it lists everything, and those
/// whose time has not when it is asked for just that.
pub proof fn law_typing_in_memory(
    db: &MemStorage,
    room_id: &str,
    ty: &str,
    now: u64,
    all: Result<Dict<String, JsonValue>, ErrorKind>,
    asked: Result<Option<JsonValue>, ErrorKind>,
    done: Set<Seq<char>>,
    still: Set<Seq<char>>,
)
    requires
        call_ensures(MemStorage::get_all_ephemeral, (db, room_id, now), all),
        call_ensures(MemStorage::get_ephemeral, (db, room_id, ty, now), asked),
        ty@ == "m.typing"@,
        db.reliable(),
        forall|u: Seq<char>| #[trigger]
            done.contains(u) <==> db@.rooms[room_id@].typing.contains_key(u)
                && db@.rooms[room_id@].typing[u] < now,
        forall|u: Seq<char>| #[trigger]
            still.contains(u) <==> db@.rooms[room_id@].typing.contains_key(u)
                && db@.rooms[room_id@].typing[u] > now,
    ensures
        all is Ok <==> db@.rooms.contains_key(room_id@),
        asked is Ok <==> db@.rooms.contains_key(room_id@),
        all is Ok ==> all->Ok_0@.contains_key("m.typing"@) && says_typing(
            all->Ok_0@["m.typing"@],
            done,
        ),
        asked is Ok ==> asked->Ok_0 is Some && says_typing(asked->Ok_0->0@, still),
{
    assert(crate::storage::done_typing(db@.rooms[room_id@].typing, now) =~= done);
    assert(crate::storage::still_typing(db@.rooms[room_id@].typing, now) =~= still);
}

/// The data that is kept of a user is given back as it is.
pub proof fn law_account_data_read<S: Storage>(
    db: &S,
    name: &str,
    r: Result<Dict<String, JsonValue>, ErrorKind>,
)
    requires
        call_ensures(S::get_user_account_data, (db, name), r),
        !db_failed(r),
    ensures
        db@.users.contains_key(name@) ==> r is Ok && r->Ok_0@ == db@.users[name@].account_data,
        r is Ok && !db@.users.contains_key(name@) ==> r->Ok_0@.dom() == Set::<Seq<char>>::empty(),
        r is Err ==> r->Err_0@ == ErrorView::UserNotFound,
{
    if r is Ok && !db@.users.contains_key(name@) {
        assert(r->Ok_0@.dom() =~= Set::<Seq<char>>::empty());
    }
}

/// An event of the store in memory is shown as it is kept, without its room.
pub proof fn law_event_in_memory(
    db: &MemStorage,
    room_id: &str,
    event_id: &str,
    r: Option<Event>,
)
    requires
        call_ensures(MemStorage::get_event, (db, room_id, event_id), r),
    ensures
        ({
            let found = find_pdu(db@.rooms, room_id@, event_id@);
            &&& r is Some == found is Some
            &&& r is Some ==> ({
                let e = r->0@;
                let p = found->0.pdu;
                &&& e.content == p.content && e.sender == p.sender && e.state_key == p.state_key
                &&& e.unsigned == p.unsigned && e.redacts == p.redacts
                &&& e.origin_server_ts == Some(p.origin_server_ts)
                &&& e.room_id is None
            })
        }),
{
}

} // verus!
