//! How users present themselves.
use crate::client::auth::AccessToken;
use crate::error::{ErrorKind, ErrorView};
use crate::events::room::{insert_text, single};
use crate::json::{with_text, Json, JsonValue};
use crate::server::{caller_of, gives, ServerState};
use crate::storage::{db_failed, with_profile, ProfileView, Storage, StorageView, UserProfile};
use crate::text::{same, text_opt};
use crate::util::mxid::{
    domain_of, lemma_parts, localpart_of, mxid_of, mxid_words, parts_verdict, MatrixId,
};
use vstd::prelude::*;

verus! {

/// Whether a user of this server has a profile; of users of other servers nothing is known.
pub open spec fn profile_known(s: StorageView, domain: Seq<char>, user_id: Seq<char>) -> bool {
    domain_of(user_id) == domain ==> s.users.contains_key(localpart_of(user_id))
}

/// What is answered on someone who lives elsewhere.
pub open spec fn not_ours() -> ErrorView {
    ErrorView::Unknown("User does not live on this homeserver"@)
}

/// The picture of a user.
pub open spec fn avatar_answer(s: StorageView, domain: Seq<char>, user_id: Seq<char>) -> Result<
    Json,
    ErrorView,
> {
    if domain_of(user_id) != domain {
        Err(ErrorView::Unimplemented)
    } else {
        match s.users[localpart_of(user_id)].profile.avatar_url {
            Some(url) => Ok(single("avatar_url"@, Json::Text(url))),
            None => Err(ErrorView::NotFound),
        }
    }
}

/// The name that a user shows.
pub open spec fn display_name_answer(
    s: StorageView,
    domain: Seq<char>,
    user_id: Seq<char>,
) -> Result<Json, ErrorView> {
    if domain_of(user_id) != domain {
        Err(not_ours())
    } else {
        match s.users[localpart_of(user_id)].profile.displayname {
            Some(name) => Ok(single("displayname"@, Json::Text(name))),
            None => Err(ErrorView::NotFound),
        }
    }
}

/// The picture and the name of a user, as far as they are there.
pub open spec fn profile_answer(s: StorageView, domain: Seq<char>, user_id: Seq<char>) -> Result<
    Json,
    ErrorView,
> {
    if domain_of(user_id) != domain {
        Err(not_ours())
    } else {
        let profile = s.users[localpart_of(user_id)].profile;
        Ok(
            Json::Object(
                with_text(
                    with_text(Map::empty(), "avatar_url"@, profile.avatar_url),
                    "displayname"@,
                    profile.displayname,
                ),
            ),
        )
    }
}

/// The profile of a user.
fn find_profile<S: Storage>(state: &ServerState<S>, user_id: &MatrixId) -> (r: Result<
    UserProfile,
    ErrorKind,
>)
    requires
        state.db@.users.contains_key(localpart_of(user_id@)),
    ensures
        match r {
            Ok(profile) => profile@ == state.db@.users[localpart_of(user_id@)].profile,
            Err(_) => db_failed(r) && !state.db.reliable(),
        },
{
    match state.db.get_profile(user_id.localpart()) {
        Ok(profile) => Ok(profile.unwrap()),
        Err(e) => Err(e),
    }
}

/// An object with one text in it.
fn object_of(key: &str, text: &str) -> (v: JsonValue)
    ensures
        v@ == single(key@, Json::Text(text@)),
{
    let mut v = JsonValue::object();
    v.insert(key, JsonValue::text(text));
    assert(v@->Object_0 =~= single(key@, Json::Text(text@))->Object_0);
    v
}

/// The picture of a user.
pub fn get_avatar_url<S: Storage>(state: &ServerState<S>, user_id: &MatrixId) -> (r: Result<
    JsonValue,
    ErrorKind,
>)
    requires
        profile_known(state.db@, state.config.domain@, user_id@),
    ensures
        if db_failed(r) {
            !state.db.reliable()
        } else {
            gives(r, avatar_answer(state.db@, state.config.domain@, user_id@))
        },
{
    if !same(user_id.domain(), state.config.domain.as_str()) {
        return Err(ErrorKind::Unimplemented);
    }
    match find_profile(state, user_id) {
        Ok(profile) => match profile.avatar_url {
            Some(v) => Ok(object_of("avatar_url", v.as_str())),
            None => Err(ErrorKind::NotFound),
        },
        Err(e) => Err(e),
    }
}

/// The name that a user shows.
pub fn get_display_name<S: Storage>(state: &ServerState<S>, user_id: &MatrixId) -> (r: Result<
    JsonValue,
    ErrorKind,
>)
    requires
        profile_known(state.db@, state.config.domain@, user_id@),
    ensures
        if db_failed(r) {
            !state.db.reliable()
        } else {
            gives(r, display_name_answer(state.db@, state.config.domain@, user_id@))
        },
{
    if !same(user_id.domain(), state.config.domain.as_str()) {
        return Err(ErrorKind::Unknown("User does not live on this homeserver".to_owned()));
    }
    match find_profile(state, user_id) {
        Ok(profile) => match profile.displayname {
            Some(v) => Ok(object_of("displayname", v.as_str())),
            None => Err(ErrorKind::NotFound),
        },
        Err(e) => Err(e),
    }
}

/// The picture and the name of a user, as far as they are there.
pub fn get_profile<S: Storage>(state: &ServerState<S>, user_id: &MatrixId) -> (r: Result<
    JsonValue,
    ErrorKind,
>)
    requires
        profile_known(state.db@, state.config.domain@, user_id@),
    ensures
        if db_failed(r) {
            !state.db.reliable()
        } else {
            gives(r, profile_answer(state.db@, state.config.domain@, user_id@))
        },
{
    if !same(user_id.domain(), state.config.domain.as_str()) {
        return Err(ErrorKind::Unknown("User does not live on this homeserver".to_owned()));
    }
    match find_profile(state, user_id) {
        Ok(profile) => {
            let mut response = JsonValue::object();
            insert_text(&mut response, "avatar_url", &profile.avatar_url);
            insert_text(&mut response, "displayname", &profile.displayname);
            Ok(response)
        },
        Err(e) => Err(e),
    }
}

/// The text that a client wants to set for a user, if it may.
pub open spec fn wanted_text(
    s: StorageView,
    domain: Seq<char>,
    token: u128,
    user_id: Seq<char>,
    body: Json,
    field: Seq<char>,
    missing: Seq<char>,
    no_text: Seq<char>,
) -> Result<Seq<char>, ErrorView> {
    match caller_of(s, token) {
        Err(e) => Err(e),
        Ok(name) => if localpart_of(user_id) != name {
            Err(ErrorView::Forbidden)
        } else if domain_of(user_id) != domain {
            Err(not_ours())
        } else if !(body is Object && body->Object_0.contains_key(field)) {
            Err(ErrorView::BadJson(missing))
        } else {
            match body->Object_0[field] {
                Json::Text(text) => Ok(text),
                _ => Err(ErrorView::BadJson(no_text)),
            }
        },
    }
}

/// The text that a client wants to set for a user, with the name of the user.
fn read_text<S: Storage>(
    state: &ServerState<S>,
    token: &AccessToken,
    user_id: &MatrixId,
    body: &JsonValue,
    field: &str,
    missing: &str,
    no_text: &str,
) -> (r: Result<(String, String), ErrorKind>)
    ensures
        match r {
            Ok((username, text)) => wanted_text(
                state.db@,
                state.config.domain@,
                token@,
                user_id@,
                body@,
                field@,
                missing@,
                no_text@,
            ) == Ok::<_, ErrorView>(text@) && username@ == localpart_of(user_id@) && caller_of(
                state.db@,
                token@,
            ) == Ok::<_, ErrorView>(username@),
            Err(e) => if db_failed(r) {
                !state.db.reliable()
            } else {
                wanted_text(
                    state.db@,
                    state.config.domain@,
                    token@,
                    user_id@,
                    body@,
                    field@,
                    missing@,
                    no_text@,
                ) == Err::<Seq<char>, _>(e@)
            },
        },
{
    let username = match state.authenticate(token.0) {
        Ok(username) => username,
        Err(e) => return Err(e),
    };
    if !same(user_id.localpart(), username.as_str()) {
        return Err(ErrorKind::Forbidden);
    }
    if !same(user_id.domain(), state.config.domain.as_str()) {
        return Err(ErrorKind::Unknown("User does not live on this homeserver".to_owned()));
    }
    let value = match body.get(field) {
        Some(value) => value,
        None => return Err(ErrorKind::BadJson(missing.to_owned())),
    };
    match value.as_str() {
        Some(text) => Ok((username, text.to_owned())),
        None => Err(ErrorKind::BadJson(no_text.to_owned())),
    }
}

/// Sets the picture of a user.
pub fn set_avatar_url<S: Storage>(
    state: &mut ServerState<S>,
    token: AccessToken,
    req_id: &MatrixId,
    body: &JsonValue,
) -> (r: Result<(), ErrorKind>)
    requires
        old(state).wf(),
    ensures
        final(state).config == old(state).config,
        final(state).db.reliable() == old(state).db.reliable(),
        !db_failed(r) ==> final(state).wf(),
        ({
            let wanted = wanted_text(
                old(state).db@,
                old(state).config.domain@,
                token@,
                req_id@,
                body@,
                "avatar_url"@,
                "no avatar_url field"@,
                "avatar_url should be a string"@,
            );
            match r {
                Ok(_) => wanted is Ok && final(state).db@ == with_profile(
                    old(state).db@,
                    localpart_of(req_id@),
                    ProfileView {
                        avatar_url: Some(wanted->Ok_0),
                        ..old(state).db@.users[localpart_of(req_id@)].profile
                    },
                ),
                Err(e) => if db_failed(r) {
                    !old(state).db.reliable()
                } else {
                    wanted == Err::<Seq<char>, _>(e@) && final(state).db@ == old(state).db@
                },
            }
        }),
{
    match read_text(
        state,
        &token,
        req_id,
        body,
        "avatar_url",
        "no avatar_url field",
        "avatar_url should be a string",
    ) {
        Ok((username, avatar_url)) => {
            assert(state.db@.users.contains_key(username@));
            state.db.set_avatar_url(username.as_str(), avatar_url.as_str())
        },
        Err(e) => Err(e),
    }
}

/// Sets the name that a user shows.
pub fn set_display_name<S: Storage>(
    state: &mut ServerState<S>,
    token: AccessToken,
    req_id: &MatrixId,
    body: &JsonValue,
) -> (r: Result<(), ErrorKind>)
    requires
        old(state).wf(),
    ensures
        final(state).config == old(state).config,
        final(state).db.reliable() == old(state).db.reliable(),
        !db_failed(r) ==> final(state).wf(),
        ({
            let wanted = wanted_text(
                old(state).db@,
                old(state).config.domain@,
                token@,
                req_id@,
                body@,
                "displayname"@,
                "no displayname field"@,
                "displayname should be a string"@,
            );
            match r {
                Ok(_) => wanted is Ok && final(state).db@ == with_profile(
                    old(state).db@,
                    localpart_of(req_id@),
                    ProfileView {
                        displayname: Some(wanted->Ok_0),
                        ..old(state).db@.users[localpart_of(req_id@)].profile
                    },
                ),
                Err(e) => if db_failed(r) {
                    !old(state).db.reliable()
                } else {
                    wanted == Err::<Seq<char>, _>(e@) && final(state).db@ == old(state).db@
                },
            }
        }),
{
    match read_text(
        state,
        &token,
        req_id,
        body,
        "displayname",
        "no displayname field",
        "displayname should be a string",
    ) {
        Ok((username, display_name)) => {
            assert(state.db@.users.contains_key(username@));
            state.db.set_display_name(username.as_str(), display_name.as_str())
        },
        Err(e) => Err(e),
    }
}

/// What is set for a user is what is then answered, and the rest of the profile stays.
pub proof fn law_profile_read_back(
    s: StorageView,
    domain: Seq<char>,
    user_id: Seq<char>,
    text: Seq<char>,
)
    requires
        domain_of(user_id) == domain,
        s.users.contains_key(localpart_of(user_id)),
    ensures
        ({
            let name = localpart_of(user_id);
            let pictured = with_profile(
                s,
                name,
                ProfileView { avatar_url: Some(text), ..s.users[name].profile },
            );
            let named = with_profile(
                s,
                name,
                ProfileView { displayname: Some(text), ..s.users[name].profile },
            );
            &&& avatar_answer(pictured, domain, user_id) == Ok::<_, ErrorView>(
                single("avatar_url"@, Json::Text(text)),
            )
            &&& display_name_answer(pictured, domain, user_id) == display_name_answer(
                s,
                domain,
                user_id,
            )
            &&& display_name_answer(named, domain, user_id) == Ok::<_, ErrorView>(
                single("displayname"@, Json::Text(text)),
            )
            &&& avatar_answer(named, domain, user_id) == avatar_answer(s, domain, user_id)
        }),
{
}

pub struct UserDirSearchRequest {
    pub search_term: String,
    pub limit: Option<usize>,
}

pub struct UserDirSearchResponse {
    pub results: Vec<User>,
    pub limited: bool,
}

/// A user in the answer to a search.
pub struct User {
    pub user_id: MatrixId,
    pub avatar_url: Option<String>,
    pub display_name: Option<String>,
}

/// Finds the user whose name is searched for.
pub fn search_user_directory<S: Storage>(
    state: &ServerState<S>,
    req: UserDirSearchRequest,
) -> (r: Result<UserDirSearchResponse, ErrorKind>)
    ensures
        match r {
            Ok(response) => {
                let name = req.search_term@;
                &&& parts_verdict(name, state.config.domain@) is Ok
                &&& !response.limited
                &&& if state.db@.users.contains_key(name) {
                    &&& response.results@.len() == 1
                    &&& response.results@[0].user_id@ == mxid_of(name, state.config.domain@)
                    &&& text_opt(response.results@[0].avatar_url)
                        == state.db@.users[name].profile.avatar_url
                    &&& text_opt(response.results@[0].display_name)
                        == state.db@.users[name].profile.displayname
                } else {
                    response.results@.len() == 0
                }
            },
            Err(e) => if db_failed(r) {
                !state.db.reliable()
            } else {
                match parts_verdict(req.search_term@, state.config.domain@) {
                    Ok(_) => false,
                    Err(why) => e@ == ErrorView::Unknown(mxid_words(why)),
                }
            },
        },
{
    let searched_user = match MatrixId::new(
        req.search_term.as_str(),
        state.config.domain.as_str(),
    ) {
        Ok(id) => id,
        Err(e) => return Err(ErrorKind::Unknown(e.message())),
    };
    proof {
        lemma_parts(req.search_term@, state.config.domain@);
    }
    let mut results: Vec<User> = Vec::new();
    match state.db.get_profile(searched_user.localpart()) {
        Ok(Some(p)) => {
            results.push(
                User {
                    user_id: searched_user,
                    avatar_url: p.avatar_url,
                    display_name: p.displayname,
                },
            );
            Ok(UserDirSearchResponse { results, limited: false })
        },
        Ok(None) => Ok(UserDirSearchResponse { results, limited: false }),
        Err(e) => Err(e),
    }
}

pub struct Get3pidsResponse {
    pub threepids: Vec<Threepid>,
}

/// A way to reach a user outside of Matrix.
pub struct Threepid {
    pub medium: Medium,
    pub address: String,
    pub validated_at: u64,
    pub added_at: u64,
}

pub enum Medium {
    Email,
    /// Phone number, including calling code
    Msisdn,
}

/// The ways to reach a user outside of Matrix: none are kept.
pub fn get_3pids<S: Storage>(state: &ServerState<S>, token: AccessToken) -> (r: Result<
    Get3pidsResponse,
    ErrorKind,
>)
    ensures
        r is Ok,
        r->Ok_0.threepids@.len() == 0,
{
    Ok(Get3pidsResponse { threepids: Vec::new() })
}

} // verus!
