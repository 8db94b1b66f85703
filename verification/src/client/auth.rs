//! Logging in and out.
use crate::error::{ErrorKind, ErrorView};
use crate::events::room::single;
use crate::json::{Json, JsonValue};
use crate::outside::{hash_accepts, parse_uuid, random_u64, show_uuid, uuid_parsed, uuid_text};
use crate::server::{caller_of, gives, ServerState};
use crate::storage::{db_failed, new_user, without_tokens_of, Storage, StorageView};
use crate::text::{
    begins, find_part, first_with, hex_padded, parts, same, starts_with, text_opt, to_hex_padded,
    trim_start_matches, trimmed,
};
use crate::util::mxid::{
    is_localpart_char, lemma_parts, localpart_of, mxid_of, mxid_verdict, mxid_words, parts_verdict, MatrixId,
};
use vstd::prelude::*;
use vstd::utf8::encode_utf8;

verus! {

/// The ways to log in.
pub enum LoginType {
    Password,
}

/// What a client shows for who it is.
pub struct AccessToken(pub u128);

/// The token that a request carries, in its `Authorization` header or else in its query string. The
/// header may hold what is no text.
pub open spec fn token_of(
    header: Option<Option<Seq<char>>>,
    query: Option<Seq<char>>,
) -> Result<u128, ErrorView> {
    let written = match header {
        Some(Some(s)) => if begins(s, "Bearer "@) {
            Some(trimmed(s, "Bearer "@))
        } else {
            None
        },
        Some(None) => None,
        None => match query {
            Some(q) => match first_with(parts(q, '&'), "access_token"@) {
                Some(pair) => Some(trimmed(pair, "access_token="@)),
                None => None,
            },
            None => None,
        },
    };
    match written {
        Some(text) => match uuid_parsed(text) {
            Some(token) => Ok(token),
            None => Err(ErrorView::UnknownToken),
        },
        None => Err(ErrorView::MissingToken),
    }
}

impl View for AccessToken {
    type V = u128;

    open spec fn view(&self) -> u128 {
        self.0
    }
}

/// What an optional text reference says.
pub open spec fn str_view(s: Option<&str>) -> Option<Seq<char>> {
    match s {
        Some(t) => Some(t@),
        None => None,
    }
}

/// What the header of a request says.
pub open spec fn header_view(header: Option<Option<&str>>) -> Option<Option<Seq<char>>> {
    match header {
        Some(h) => Some(str_view(h)),
        None => None,
    }
}

impl AccessToken {
    /// The token that a request carries, in its `Authorization` header or else in its query string.
    pub fn from_request(header: Option<Option<&str>>, query: Option<&str>) -> (r: Result<
        Self,
        ErrorKind,
    >)
        ensures
            gives(r, token_of(header_view(header), str_view(query))),
    {
        let written = match header {
            Some(Some(s)) => {
                if !starts_with(s, "Bearer ") {
                    return Err(ErrorKind::MissingToken);
                }
                trim_start_matches(s, "Bearer ")
            },
            Some(None) => return Err(ErrorKind::MissingToken),
            None => match query {
                Some(q) => match find_part(q, '&', "access_token") {
                    Some(pair) => trim_start_matches(pair.as_str(), "access_token="),
                    None => return Err(ErrorKind::MissingToken),
                },
                None => return Err(ErrorKind::MissingToken),
            },
        };
        match parse_uuid(written.as_str()) {
            Some(token) => Ok(AccessToken(token)),
            None => Err(ErrorKind::UnknownToken),
        }
    }
}

/// The ways to log in, as clients are told.
pub open spec fn login_types_json() -> Json {
    single(
        "flows"@,
        Json::Array(seq![single("type"@, Json::Text("m.login.password"@))]),
    )
}

pub fn get_supported_login_types() -> (v: JsonValue)
    ensures
        v@ == login_types_json(),
{
    let mut flow = JsonValue::object();
    flow.insert("type", JsonValue::text("m.login.password"));
    let mut flows = JsonValue::array();
    flows.push(flow);
    let mut v = JsonValue::object();
    v.insert("flows", flows);
    proof {
        assert(v@->Object_0["flows"@]->Array_0 =~= seq![
            single("type"@, Json::Text("m.login.password"@)),
        ]);
        assert(v@->Object_0 =~= login_types_json()->Object_0);
    }
    v
}

pub struct LoginRequest {
    pub login_type: LoginType,
    pub identifier: Identifier,
    pub password: Option<String>,
    pub token: Option<String>,
    pub device_id: Option<String>,
    pub initial_device_display_name: String,
}

/// How a user says who they are.
pub enum Identifier {
    Username { user: String },
    ThirdParty { medium: String, address: String },
    Phone { country: String, phone: String },
}

pub struct LoginResponse {
    pub user_id: MatrixId,
    pub access_token: String,
    pub device_id: String,
    pub home_server: String,
}

impl LoginResponse {
    /// The JSON of the response.
    pub fn to_json(&self) -> (v: JsonValue)
        ensures
            v@ == Json::Object(
                Map::<Seq<char>, Json>::empty().insert(
                    "user_id"@,
                    Json::Text(self.user_id@),
                ).insert("access_token"@, Json::Text(self.access_token@)).insert(
                    "device_id"@,
                    Json::Text(self.device_id@),
                ).insert("home_server"@, Json::Text(self.home_server@)),
            ),
    {
        let mut v = JsonValue::object();
        v.insert("user_id", JsonValue::text(self.user_id.as_str()));
        v.insert("access_token", JsonValue::text(self.access_token.as_str()));
        v.insert("device_id", JsonValue::text(self.device_id.as_str()));
        v.insert("home_server", JsonValue::text(self.home_server.as_str()));
        v
    }
}

/// The name under which a user logs in: an identifier stands for its localpart.
pub open spec fn login_name(identifier: Identifier) -> Result<Seq<char>, ErrorView> {
    match identifier {
        Identifier::Username { user } => Ok(
            if mxid_verdict(user@) is Ok {
                localpart_of(user@)
            } else {
                user@
            },
        ),
        _ => Err(ErrorView::Unimplemented),
    }
}

/// The name of the user who logs in, if they may.
pub open spec fn login_verdict(s: StorageView, req: LoginRequest) -> Result<Seq<char>, ErrorView> {
    match login_name(req.identifier) {
        Ok(name) => match req.password {
            Some(password) => if s.users.contains_key(name) && hash_accepts(
                s.users[name].password_hash,
                encode_utf8(password@),
            ) == Some(true) {
                Ok(name)
            } else {
                Err(ErrorView::Forbidden)
            },
            None => Err(ErrorView::Unimplemented),
        },
        Err(e) => Err(e),
    }
}

/// The device that a client names, or one made of a number.
pub open spec fn device_of(given: Option<Seq<char>>, number: u32) -> Seq<char> {
    match given {
        Some(device) => device,
        None => hex_padded(number as nat, 8, true),
    }
}

fn name_device(given: Option<String>, number: u32) -> (device: String)
    ensures
        device@ == device_of(text_opt(given), number),
{
    match given {
        Some(device) => device,
        None => to_hex_padded(number as u64, 8, true),
    }
}

/// Whether a token was made for a user, and nothing else was changed.
pub open spec fn token_made(
    before: StorageView,
    after: StorageView,
    username: Seq<char>,
    token: u128,
) -> bool {
    after == (StorageView { tokens: before.tokens.insert(token, username), ..before })
}

/// Logs a user in. A device that the client does not name is made of a number.
pub fn login_with<S: Storage>(
    state: &mut ServerState<S>,
    req: LoginRequest,
    number: u32,
) -> (r: Result<LoginResponse, ErrorKind>)
    requires
        old(state).wf(),
    ensures
        final(state).config == old(state).config,
        final(state).db.reliable() == old(state).db.reliable(),
        !db_failed(r) ==> final(state).wf(),
        match r {
            Ok(response) => {
                let name = login_verdict(old(state).db@, req);
                &&& name is Ok
                &&& response.user_id@ == mxid_of(name->Ok_0, old(state).config.domain@)
                &&& response.device_id@ == device_of(text_opt(req.device_id), number)
                &&& response.home_server@ == old(state).config.domain@
                &&& uuid_parsed(response.access_token@) is Some
                &&& response.access_token@ == uuid_text(uuid_parsed(response.access_token@)->0)
                &&& token_made(
                    old(state).db@,
                    final(state).db@,
                    name->Ok_0,
                    uuid_parsed(response.access_token@)->0,
                )
            },
            Err(e) => if db_failed(r) {
                !old(state).db.reliable()
            } else {
                login_verdict(old(state).db@, req) == Err::<Seq<char>, _>(e@) && final(state).db@
                    == old(state).db@
            },
        },
{
    let username = match req.identifier {
        Identifier::Username { user } => match MatrixId::parse(user.as_str()) {
            Ok(mxid) => mxid.localpart().to_owned(),
            Err(_) => user,
        },
        _ => return Err(ErrorKind::Unimplemented),
    };
    let password = match req.password {
        Some(password) => password,
        None => return Err(ErrorKind::Unimplemented),
    };
    match state.db.verify_password(username.as_str(), password.as_str()) {
        Ok(true) => {},
        Ok(false) => return Err(ErrorKind::Forbidden),
        Err(e) => return Err(e),
    }
    let device_id = name_device(req.device_id, number);
    assert(state.db@.users.contains_key(username@));
    let token = match state.db.create_access_token(username.as_str(), device_id.as_str()) {
        Ok(token) => token,
        Err(e) => return Err(e),
    };
    let user_id = MatrixId::new(username.as_str(), state.config.domain.as_str()).unwrap();
    let access_token = show_uuid(token);
    Ok(LoginResponse { user_id, access_token, device_id, home_server: state.config.domain.clone() })
}

/// Logs a user in.
pub fn login<S: Storage>(state: &mut ServerState<S>, req: LoginRequest) -> (r: Result<
    LoginResponse,
    ErrorKind,
>)
    requires
        old(state).wf(),
    ensures
        final(state).config == old(state).config,
        final(state).db.reliable() == old(state).db.reliable(),
        !db_failed(r) ==> final(state).wf(),
        match r {
            Ok(response) => {
                let name = login_verdict(old(state).db@, req);
                &&& name is Ok
                &&& response.user_id@ == mxid_of(name->Ok_0, old(state).config.domain@)
                &&& exists|number: u32|
                    response.device_id@ == #[trigger] device_of(text_opt(req.device_id), number)
                &&& response.home_server@ == old(state).config.domain@
                &&& uuid_parsed(response.access_token@) is Some
                &&& response.access_token@ == uuid_text(uuid_parsed(response.access_token@)->0)
                &&& token_made(
                    old(state).db@,
                    final(state).db@,
                    name->Ok_0,
                    uuid_parsed(response.access_token@)->0,
                )
            },
            Err(e) => if db_failed(r) {
                !old(state).db.reliable()
            } else {
                login_verdict(old(state).db@, req) == Err::<Seq<char>, _>(e@) && final(state).db@
                    == old(state).db@
            },
        },
{
    let number: u32 = (random_u64() % 0x1_0000_0000) as u32;
    login_with(state, req, number)
}

/// Makes a token invalid.
pub fn logout<S: Storage>(state: &mut ServerState<S>, token: AccessToken) -> (r: Result<
    (),
    ErrorKind,
>)
    requires
        old(state).wf(),
    ensures
        final(state).config == old(state).config,
        final(state).db.reliable() == old(state).db.reliable(),
        match r {
            Ok(_) => final(state).wf() && final(state).db@ == (StorageView {
                tokens: old(state).db@.tokens.remove(token@),
                ..old(state).db@
            }),
            Err(_) => db_failed(r) && !old(state).db.reliable(),
        },
{
    state.db.delete_access_token(token.0)
}

/// Makes all tokens of the user of a token invalid.
pub fn logout_all<S: Storage>(state: &mut ServerState<S>, token: AccessToken) -> (r: Result<
    (),
    ErrorKind,
>)
    requires
        old(state).wf(),
    ensures
        final(state).config == old(state).config,
        final(state).db.reliable() == old(state).db.reliable(),
        match r {
            Ok(_) => final(state).wf() && final(state).db@ == (StorageView {
                tokens: without_tokens_of(old(state).db@.tokens, token@),
                ..old(state).db@
            }),
            Err(_) => db_failed(r) && !old(state).db.reliable(),
        },
{
    state.db.delete_all_access_tokens(token.0)
}

pub struct RegisterRequest {
    pub auth: JsonValue,
    pub bind_email: bool,
    pub bind_msisdn: bool,
    pub username: String,
    pub password: String,
    pub device_id: Option<String>,
    pub initial_device_display_name: String,
    pub inhibit_login: bool,
}

/// Whether a query string asks for a user account, and if not, why nothing comes of it.
pub open spec fn kind_verdict(query: Seq<char>) -> Result<(), ErrorView> {
    match first_with(parts(query, '&'), "kind="@) {
        Some(kind) => if kind == "kind=user"@ {
            Ok(())
        } else if kind == "kind=guest"@ {
            Err(ErrorView::Unimplemented)
        } else {
            Err(ErrorView::InvalidParam(kind))
        },
        None => Err(ErrorView::MissingParam("kind"@)),
    }
}

/// Whether a registration can go on to make a user, and if not, why.
pub open spec fn register_verdict(
    domain: Seq<char>,
    req: RegisterRequest,
    query: Seq<char>,
) -> Result<(), ErrorView> {
    match kind_verdict(query) {
        Ok(_) => match parts_verdict(req.username@, domain) {
            Ok(_) => Ok(()),
            Err(e) => Err(ErrorView::BadJson(mxid_words(e))),
        },
        Err(e) => Err(e),
    }
}

fn check_kind(query: &str) -> (r: Result<(), ErrorKind>)
    ensures
        match r {
            Ok(_) => kind_verdict(query@) is Ok,
            Err(e) => kind_verdict(query@) == Err::<(), _>(e@) && !db_failed(r),
        },
{
    match find_part(query, '&', "kind=") {
        Some(kind) => if same(kind.as_str(), "kind=user") {
            Ok(())
        } else if same(kind.as_str(), "kind=guest") {
            Err(ErrorKind::Unimplemented)
        } else {
            Err(ErrorKind::InvalidParam(kind))
        },
        None => Err(ErrorKind::MissingParam("kind".to_owned())),
    }
}

/// The storage with a user who has a password hash.
pub open spec fn with_user(s: StorageView, username: Seq<char>, hash: Seq<char>) -> StorageView {
    StorageView { users: s.users.insert(username, new_user(hash)), ..s }
}

/// What a registration answers when the user is to log in later.
pub open spec fn registered_json(username: Seq<char>) -> Json {
    single("user_id"@, Json::Text(username))
}

/// What a registration answers when the user is logged in at once.
pub open spec fn logged_in_json(user_id: Seq<char>, token: Seq<char>, device: Seq<char>) -> Json {
    Json::Object(
        Map::<Seq<char>, Json>::empty().insert("user_id"@, Json::Text(user_id)).insert(
            "access_token"@,
            Json::Text(token),
        ).insert("device_id"@, Json::Text(device)),
    )
}

/// Whether a registration was carried out: the user was made with a hash of the password, and
/// logged in with a token unless they were not to be.
pub open spec fn registered(
    before: StorageView,
    after: StorageView,
    domain: Seq<char>,
    req: RegisterRequest,
    number: u32,
    answer: Json,
    hash: Seq<char>,
    token: u128,
) -> bool {
    &&& hash_accepts(hash, encode_utf8(req.password@)) == Some(true)
    &&& if req.inhibit_login {
        after == with_user(before, req.username@, hash) && answer == registered_json(req.username@)
    } else {
        token_made(with_user(before, req.username@, hash), after, req.username@, token) && answer
            == logged_in_json(
            mxid_of(req.username@, domain),
            uuid_text(token),
            device_of(text_opt(req.device_id), number),
        )
    }
}

/// Whether a registration was carried out with some hash and some token.
pub open spec fn carried_out(
    before: StorageView,
    after: StorageView,
    domain: Seq<char>,
    req: RegisterRequest,
    number: u32,
    answer: Json,
) -> bool {
    exists|hash: Seq<char>, token: u128| #[trigger]
        registered(before, after, domain, req, number, answer, hash, token)
}

/// Makes a user. A device that the client does not name is made of a number.
pub fn register_with<S: Storage>(
    state: &mut ServerState<S>,
    req: RegisterRequest,
    query: &str,
    number: u32,
) -> (r: Result<JsonValue, ErrorKind>)
    requires
        old(state).wf(),
    ensures
        final(state).config == old(state).config,
        final(state).db.reliable() == old(state).db.reliable(),
        !db_failed(r) ==> final(state).wf(),
        match r {
            Ok(answer) => {
                &&& register_verdict(old(state).config.domain@, req, query@) is Ok
                &&& !old(state).db@.users.contains_key(req.username@)
                &&& carried_out(
                    old(state).db@,
                    final(state).db@,
                    old(state).config.domain@,
                    req,
                    number,
                    answer@,
                )
            },
            Err(e) => if db_failed(r) {
                !old(state).db.reliable()
            } else {
                &&& final(state).db@ == old(state).db@
                &&& match register_verdict(old(state).config.domain@, req, query@) {
                    Err(wanted) => e@ == wanted,
                    Ok(_) => if old(state).db@.users.contains_key(req.username@) {
                        e@ == ErrorView::UsernameTaken
                    } else {
                        e@ is PasswordError && encode_utf8(req.password@).len()
                            > u32::MAX
                    },
                }
            },
        },
{
    let ghost domain = state.config.domain@;
    match check_kind(query) {
        Ok(()) => {},
        Err(e) => return Err(e),
    }
    let user_id = match MatrixId::new(req.username.as_str(), state.config.domain.as_str()) {
        Ok(user_id) => user_id,
        Err(e) => return Err(ErrorKind::BadJson(e.message())),
    };
    proof {
        lemma_parts(req.username@, domain);
    }
    match state.db.create_user(user_id.localpart(), req.password.as_str()) {
        Ok(()) => {},
        Err(e) => return Err(e),
    }
    let ghost hash = state.db@.users[req.username@].password_hash;
    let ghost made = state.db@;
    assert(made =~= with_user(old(state).db@, req.username@, hash));
    if req.inhibit_login {
        let mut v = JsonValue::object();
        v.insert("user_id", JsonValue::text(req.username.as_str()));
        assert(v@->Object_0 =~= registered_json(req.username@)->Object_0);
        assert(registered(old(state).db@, state.db@, domain, req, number, v@, hash, 0));
        assert(carried_out(old(state).db@, state.db@, domain, req, number, v@));
        return Ok(v);
    }
    let device_id = name_device(req.device_id, number);
    let token = match state.db.create_access_token(user_id.localpart(), device_id.as_str()) {
        Ok(token) => token,
        Err(e) => return Err(e),
    };
    let mut v = JsonValue::object();
    v.insert("user_id", JsonValue::text(user_id.as_str()));
    v.insert("access_token", JsonValue::text(show_uuid(token).as_str()));
    v.insert("device_id", JsonValue::text(device_id.as_str()));
    assert(registered(old(state).db@, state.db@, domain, req, number, v@, hash, token));
    assert(carried_out(old(state).db@, state.db@, domain, req, number, v@));
    Ok(v)
}

/// Makes a user.
pub fn register<S: Storage>(
    state: &mut ServerState<S>,
    req: RegisterRequest,
    query: &str,
) -> (r: Result<JsonValue, ErrorKind>)
    requires
        old(state).wf(),
    ensures
        final(state).config == old(state).config,
        final(state).db.reliable() == old(state).db.reliable(),
        !db_failed(r) ==> final(state).wf(),
        match r {
            Ok(answer) => {
                &&& register_verdict(old(state).config.domain@, req, query@) is Ok
                &&& !old(state).db@.users.contains_key(req.username@)
                &&& exists|number: u32| #[trigger]
                    carried_out(
                        old(state).db@,
                        final(state).db@,
                        old(state).config.domain@,
                        req,
                        number,
                        answer@,
                    )
            },
            Err(e) => if db_failed(r) {
                !old(state).db.reliable()
            } else {
                &&& final(state).db@ == old(state).db@
                &&& match register_verdict(old(state).config.domain@, req, query@) {
                    Err(wanted) => e@ == wanted,
                    Ok(_) => if old(state).db@.users.contains_key(req.username@) {
                        e@ == ErrorView::UsernameTaken
                    } else {
                        e@ is PasswordError && encode_utf8(req.password@).len()
                            > u32::MAX
                    },
                }
            },
        },
{
    let number: u32 = (random_u64() % 0x1_0000_0000) as u32;
    register_with(state, req, query, number)
}

/// A user who has registered can log in with the same name and password.
pub proof fn law_registered_can_log_in(
    before: StorageView,
    after: StorageView,
    domain: Seq<char>,
    req: RegisterRequest,
    number: u32,
    answer: Json,
    hash: Seq<char>,
    token: u128,
    login: LoginRequest,
)
    requires
        registered(before, after, domain, req, number, answer, hash, token),
        parts_verdict(req.username@, domain) is Ok,
        login.identifier is Username,
        login.identifier->user@ == req.username@ || login.identifier->user@ == mxid_of(
            req.username@,
            domain,
        ),
        login.password is Some && login.password->0@ == req.password@,
    ensures
        login_verdict(after, login) == Ok::<_, ErrorView>(req.username@),
{
    lemma_parts(req.username@, domain);
    assert(mxid_verdict(req.username@) is Err) by {
        if req.username@.len() > 0 {
            assert(is_localpart_char(req.username@[0]));
        }
    }
}

/// After a login the token belongs to the user, until it is logged out.
pub proof fn law_token_until_logout(
    before: StorageView,
    after: StorageView,
    username: Seq<char>,
    token: u128,
)
    requires
        token_made(before, after, username, token),
    ensures
        caller_of(after, token) == Ok::<_, ErrorView>(username),
        caller_of(
            (StorageView { tokens: after.tokens.remove(token), ..after }),
            token,
        ) == Err::<Seq<char>, _>(ErrorView::UnknownToken),
        forall|other: u128|
            after.tokens.contains_key(other) && after.tokens[other] == username
                ==> #[trigger] caller_of(
                (StorageView { tokens: without_tokens_of(after.tokens, token), ..after }),
                other,
            ) == Err::<Seq<char>, _>(ErrorView::UnknownToken),
        forall|other: u128|
            after.tokens.contains_key(other) && after.tokens[other] != username
                ==> #[trigger] caller_of(
                (StorageView { tokens: without_tokens_of(after.tokens, token), ..after }),
                other,
            ) == caller_of(after, other),
{
}

/// The text of a token is accepted as the token, in the header and in the query string.
pub proof fn law_token_accepted(text: Seq<char>, token: u128, query: Option<Seq<char>>)
    requires
        uuid_parsed(text) == Some(token),
        !begins(text, "Bearer "@),
        !begins(text, "access_token="@),
        !text.contains('&'),
    ensures
        token_of(Some(Some("Bearer "@ + text)), query) == Ok::<_, ErrorView>(token),
        token_of(None, Some("access_token="@ + text)) == Ok::<_, ErrorView>(token),
{
    let header = "Bearer "@ + text;
    reveal_strlit("Bearer ");
    reveal_with_fuel(trimmed, 3);
    assert(header.take("Bearer "@.len() as int) =~= "Bearer "@);
    assert(header.skip("Bearer "@.len() as int) =~= text);
    let pair = "access_token="@ + text;
    reveal_strlit("access_token=");
    reveal_strlit("access_token");
    assert(pair.take("access_token="@.len() as int) =~= "access_token="@);
    assert(pair.skip("access_token="@.len() as int) =~= text);
    assert(pair.take("access_token"@.len() as int) =~= "access_token"@);
    assert(!pair.contains('&')) by {
        if pair.contains('&') {
            let i = choose|i: int| 0 <= i < pair.len() && pair[i] == '&';
            if i >= "access_token="@.len() {
                assert(text[i - "access_token="@.len()] == '&');
            }
        }
    }
    assert(parts(pair, '&') =~= seq![pair]);
    assert(first_with(parts(pair, '&'), "access_token"@) == Some(pair));
}

} // verus!
