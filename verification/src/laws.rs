//! What holds of identifiers, errors and signatures.
use crate::client::error::ClientError;
use crate::dict::Dict;
use crate::error::{ErrorKind, ErrorResponse, ErrorView, JsonFault};
use crate::events::laws::member;
use crate::json::{canonical_json, Json, JsonValue};
use crate::outside::base64_text;
use crate::server::{start_mem, Config, ServerState, StorageKind};
use crate::server_api::{request_json, server_request, signature_header};
use crate::sign::{sign_json, signatures_of, Key, KeyView};
use crate::storage::mem::MemStorage;
use crate::storage::Storage;
use crate::text::texts;
use crate::util::mxid::{domain_of, localpart_of, mxid_of, MatrixId, MxidError};
use vstd::prelude::*;
use vstd::utf8::encode_utf8;

verus! {

/// Whether a character may stand in the name of a user: a small letter, a digit, or one of `-_.=/`.
pub open spec fn in_names(c: char) -> bool {
    ('a' <= c <= 'z') || ('0' <= c <= '9') || c == '-' || c == '_' || c == '.' || c == '=' || c == '/'
}

/// Whether a character may stand in the name of a server: a letter, a digit, a hyphen or a dot.
pub open spec fn in_server_names(c: char) -> bool {
    ('a' <= c <= 'z') || ('A' <= c <= 'Z') || ('0' <= c <= '9') || c == '-' || c == '.'
}

/// Whether a name and a domain can make up an identifier.
pub open spec fn fit(name: Seq<char>, domain: Seq<char>) -> bool {
    &&& forall|i: int| 0 <= i < name.len() ==> in_names(#[trigger] name[i])
    &&& forall|i: int| 0 <= i < domain.len() ==> in_server_names(#[trigger] domain[i])
    &&& domain.len() >= 1
    &&& name.len() + domain.len() <= 253
}

/// An identifier is made of a name and a domain that fit, and has both as its parts. Where they do not fit
/// there is none.
pub proof fn law_identifier_made(
    name: &str,
    domain: &str,
    r: Result<MatrixId, MxidError>,
    local: &str,
    server: &str,
    text: &str,
)
    requires
        call_ensures(MatrixId::new, (name, domain), r),
        r is Ok ==> call_ensures(MatrixId::localpart, (&r->Ok_0,), local),
        r is Ok ==> call_ensures(MatrixId::domain, (&r->Ok_0,), server),
        r is Ok ==> call_ensures(MatrixId::as_str, (&r->Ok_0,), text),
    ensures
        r is Ok <==> fit(name@, domain@),
        r is Ok ==> local@ == name@ && server@ == domain@ && text@ == seq!['@'] + name@ + seq![':']
            + domain@,
        r == Err::<MatrixId, MxidError>(MxidError::InvalidChar) <==> exists|i: int|
            0 <= i < name@.len() && !in_names(#[trigger] name@[i]),
        r == Err::<MatrixId, MxidError>(MxidError::InvalidDomain) <==> (forall|i: int|
            0 <= i < name@.len() ==> in_names(#[trigger] name@[i])) && !names_a_server(domain@),
        r == Err::<MatrixId, MxidError>(MxidError::TooLong) <==> (forall|i: int|
            0 <= i < name@.len() ==> in_names(#[trigger] name@[i])) && names_a_server(domain@)
            && name@.len() + domain@.len() > 253,
{
    lemma_fit(name@, domain@);
    lemma_server(domain@);
    assert forall|i: int| 0 <= i < name@.len() implies in_names(#[trigger] name@[i])
        == crate::util::mxid::is_localpart_char(name@[i]) by {}
    if r is Ok {
        crate::util::mxid::lemma_parts(name@, domain@);
    }
    if exists|i: int| 0 <= i < name@.len() && !in_names(#[trigger] name@[i]) {
        let i = choose|i: int| 0 <= i < name@.len() && !in_names(#[trigger] name@[i]);
        assert(!crate::util::mxid::is_localpart_char(name@[i]));
    }
    if r == Err::<MatrixId, MxidError>(MxidError::InvalidChar) {
        let i = choose|i: int|
            0 <= i < name@.len() && !crate::util::mxid::is_localpart_char(#[trigger] name@[i]);
        assert(!in_names(name@[i]));
    }
}

/// Whether a text can be the name of a server.
pub open spec fn names_a_server(domain: Seq<char>) -> bool {
    1 <= domain.len() <= 255 && forall|i: int|
        0 <= i < domain.len() ==> in_server_names(#[trigger] domain[i])
}

proof fn lemma_server(domain: Seq<char>)
    ensures
        crate::util::mxid::is_server_name(domain) == names_a_server(domain),
{
    assert forall|i: int| 0 <= i < domain.len() implies in_server_names(#[trigger] domain[i])
        == crate::util::mxid::is_server_name_char(domain[i]) by {}
    if crate::util::mxid::is_server_name(domain) {
        assert forall|i: int| 0 <= i < domain.len() implies in_server_names(
            #[trigger] domain[i],
        ) by {
            assert(crate::util::mxid::is_server_name_char(domain[i]));
        }
    }
    if names_a_server(domain) {
        assert forall|i: int| 0 <= i < domain.len() implies crate::util::mxid::is_server_name_char(
            #[trigger] domain[i],
        ) by {
            assert(in_server_names(domain[i]));
        }
    }
}

proof fn lemma_fit(name: Seq<char>, domain: Seq<char>)
    ensures
        crate::util::mxid::parts_verdict(name, domain) is Ok <==> fit(name, domain),
{
    let verdict = crate::util::mxid::parts_verdict(name, domain);
    if verdict is Ok {
        assert forall|i: int| 0 <= i < name.len() implies in_names(#[trigger] name[i]) by {
            assert(crate::util::mxid::is_localpart_char(name[i]));
        }
        assert forall|i: int| 0 <= i < domain.len() implies in_server_names(
            #[trigger] domain[i],
        ) by {
            assert(crate::util::mxid::is_server_name_char(domain[i]));
        }
    }
    if fit(name, domain) {
        assert forall|i: int| 0 <= i < domain.len() implies crate::util::mxid::is_server_name_char(
            #[trigger] domain[i],
        ) by {
            assert(in_server_names(domain[i]));
        }
        assert forall|i: int| 0 <= i < name.len() implies crate::util::mxid::is_localpart_char(
            #[trigger] name[i],
        ) by {
            assert(in_names(name[i]));
        }
    }
}

/// A text is an identifier exactly where it is an at sign, a name, a colon and a domain that fit, and it is
/// taken as it is.
pub proof fn law_identifier_read(text: &str, r: Result<MatrixId, MxidError>)
    requires
        call_ensures(MatrixId::parse, (text,), r),
    ensures
        r is Ok <==> exists|name: Seq<char>, domain: Seq<char>|
            #[trigger] fit(name, domain) && text@ == seq!['@'] + name + seq![':'] + domain,
        r is Ok ==> r->Ok_0@ == text@,
        text@.len() == 0 || text@[0] != '@' ==> r == Err::<MatrixId, MxidError>(
            MxidError::NoLeadingAt,
        ),
        text@.len() > 0 && text@[0] == '@' && !text@.contains(':') ==> r == Err::<
            MatrixId,
            MxidError,
        >(MxidError::WrongNumberOfColons),
{
    if r is Ok {
        crate::util::mxid::lemma_mxid_made_of_parts(text@);
        let name = localpart_of(text@);
        let domain = domain_of(text@);
        lemma_fit(name, domain);
        assert(fit(name, domain) && text@ == seq!['@'] + name + seq![':'] + domain);
    }
    if exists|name: Seq<char>, domain: Seq<char>|
        #[trigger] fit(name, domain) && text@ == seq!['@'] + name + seq![':'] + domain {
        let (name, domain) = choose|name: Seq<char>, domain: Seq<char>|
            #[trigger] fit(name, domain) && text@ == seq!['@'] + name + seq![':'] + domain;
        lemma_fit(name, domain);
        crate::util::mxid::lemma_parts(name, domain);
        assert(text@ == mxid_of(name, domain));
    }
    if text@.len() > 0 && text@[0] == '@' && !text@.contains(':') {
        let rest = text@.skip(1);
        if rest.contains(':') {
            let i = choose|i: int| 0 <= i < rest.len() && rest[i] == ':';
            assert(text@[i + 1] == ':');
        }
    }
}

/// What clients are answered when a request fails: who is not allowed gets 403, what is not there 404, what is
/// wrong with a request 400, too many requests 429, what is not done 501, and what fails inside 500. The code
/// says which it is.
pub proof fn law_error_answered(e: &ErrorKind, trace: &str, r: ErrorResponse, body: JsonValue)
    requires
        call_ensures(ErrorKind::error_response, (e, trace), r),
        call_ensures(ErrorResponse::to_json, (&r,), body),
    ensures
        r.status == (match e {
            ErrorKind::Forbidden => 403u16,
            ErrorKind::UnknownToken => 403u16,
            ErrorKind::MissingToken => 403u16,
            ErrorKind::UsernameTaken => 403u16,
            ErrorKind::NotFound => 404u16,
            ErrorKind::UserNotFound => 404u16,
            ErrorKind::RoomNotFound => 404u16,
            ErrorKind::LimitExceeded => 429u16,
            ErrorKind::Unimplemented => 501u16,
            ErrorKind::SledError(_) => 500u16,
            ErrorKind::BincodeError(_) => 500u16,
            ErrorKind::AddEventError(_) => 500u16,
            _ => 400u16,
        }),
        r.errcode@ == (match e {
            ErrorKind::Forbidden => "M_FORBIDDEN"@,
            ErrorKind::UnknownToken => "M_UNKNOWN_TOKEN"@,
            ErrorKind::MissingToken => "M_MISSING_TOKEN"@,
            ErrorKind::BadJson(_) => "M_BAD_JSON"@,
            ErrorKind::NotJson(_) => "M_NOT_JSON"@,
            ErrorKind::NotFound => "M_NOT_FOUND"@,
            ErrorKind::UserNotFound => "M_NOT_FOUND"@,
            ErrorKind::RoomNotFound => "M_NOT_FOUND"@,
            ErrorKind::UsernameTaken => "M_USER_IN_USE"@,
            ErrorKind::LimitExceeded => "M_LIMIT_EXCEEDED"@,
            ErrorKind::MissingParam(_) => "M_MISSING_PARAM"@,
            ErrorKind::InvalidParam(_) => "M_INVALID_PARAM"@,
            ErrorKind::UnsupportedRoomVersion => "M_UNSUPPORTED_ROOM_VERSION"@,
            _ => "M_UNKNOWN"@,
        }),
        trace@.is_suffix_of(r.error@),
        member(body@, "errcode"@) == Some(Json::Text(r.errcode@)),
        member(body@, "error"@) == Some(Json::Text(r.error@)),
{
    reveal_strlit("errcode");
    reveal_strlit("error");
    assert("errcode"@.len() != "error"@.len());
    let words = crate::error::words_of(e@);
    assert(r.error@ == words + "\n"@ + trace@);
    assert(r.error@.subrange(r.error@.len() - trace@.len(), r.error@.len() as int) =~= trace@);
}

/// What is told of an error ends with its details.
pub proof fn law_error_words(e: &ErrorKind, words: String)
    requires
        call_ensures(ErrorKind::message, (e,), words),
    ensures
        e matches ErrorKind::BadJson(s) ==> s@.is_suffix_of(words@),
        e matches ErrorKind::NotJson(s) ==> s@.is_suffix_of(words@),
        e matches ErrorKind::MissingParam(s) ==> s@.is_suffix_of(words@),
        e matches ErrorKind::InvalidParam(s) ==> s@.is_suffix_of(words@),
        e matches ErrorKind::UrlNotUtf8(s) ==> s@.is_suffix_of(words@),
        e matches ErrorKind::Unknown(s) ==> s@.is_suffix_of(words@),
        e matches ErrorKind::SledError(s) ==> (s@ + "."@).is_suffix_of(words@),
        e matches ErrorKind::BincodeError(s) ==> (s@ + "."@).is_suffix_of(words@),
{
    match e {
        ErrorKind::BadJson(s) | ErrorKind::NotJson(s) | ErrorKind::MissingParam(s)
        | ErrorKind::InvalidParam(s) | ErrorKind::UrlNotUtf8(s) | ErrorKind::Unknown(s) => {
            assert(words@.subrange(words@.len() - s@.len(), words@.len() as int) =~= s@);
        },
        ErrorKind::SledError(s) | ErrorKind::BincodeError(s) => {
            let tail = s@ + "."@;
            assert(words@.subrange(words@.len() - tail.len(), words@.len() as int) =~= tail);
        },
        _ => {},
    }
}

/// What clients are answered when a request fails, in the shorter form.
pub proof fn law_client_error_answered(e: &ClientError, r: ErrorResponse)
    requires
        call_ensures(ClientError::error_response, (e,), r),
    ensures
        r.status == (match e {
            ClientError::Forbidden => 403u16,
            ClientError::UnknownToken => 403u16,
            ClientError::MissingToken => 403u16,
            ClientError::NotFound => 404u16,
            ClientError::LimitExceeded => 429u16,
            ClientError::Unimplemented => 501u16,
            ClientError::DbError(_) => 500u16,
            ClientError::IoError(_) => 500u16,
            ClientError::AddEventError(_) => 500u16,
            _ => 400u16,
        }),
        r.errcode@ == (match e {
            ClientError::Forbidden => "M_FORBIDDEN"@,
            ClientError::UnknownToken => "M_UNKNOWN_TOKEN"@,
            ClientError::MissingToken => "M_MISSING_TOKEN"@,
            ClientError::BadJson(_) => "M_BAD_JSON"@,
            ClientError::NotJson(_) => "M_NOT_JSON"@,
            ClientError::NotFound => "M_NOT_FOUND"@,
            ClientError::LimitExceeded => "M_LIMIT_EXCEEDED"@,
            ClientError::MissingParam(_) => "M_MISSING_PARAM"@,
            ClientError::InvalidParam(_) => "M_INVALID_PARAM"@,
            ClientError::UnsupportedRoomVersion => "M_UNSUPPORTED_ROOM_VERSION"@,
            _ => "M_UNKNOWN"@,
        }),
        e matches ClientError::BadJson(s) ==> r.error@ == s@,
        e matches ClientError::NotJson(s) ==> r.error@ == s@,
        e matches ClientError::MissingParam(s) ==> r.error@ == s@,
        e matches ClientError::InvalidParam(s) ==> r.error@ == s@,
        e matches ClientError::DbError(s) ==> r.error@ == s@,
        e matches ClientError::IoError(s) ==> r.error@ == s@,
        e matches ClientError::Unknown(s) ==> r.error@ == s@,
{
}

/// JSON that does not fit is told from what is no JSON, and from what else went wrong.
pub proof fn law_faults_told(
    words: String,
    a: ErrorKind,
    b: ErrorKind,
    c: ErrorKind,
    d: ErrorKind,
)
    requires
        call_ensures(ErrorKind::from_payload, (Some(JsonFault::Data), words), a),
        call_ensures(ErrorKind::from_payload, (Some(JsonFault::Other), words), b),
        call_ensures(ErrorKind::from_payload, (None::<JsonFault>, words), c),
        call_ensures(ErrorKind::from_utf8_error, (words,), d),
    ensures
        a@ == ErrorView::BadJson(words@),
        b@ == ErrorView::NotJson(words@),
        c@ == ErrorView::Unknown(words@),
        d@ == ErrorView::NotJson(words@),
{
}

/// Each key signs the canonical text of a value under its own name, in base64, and no other signature is made.
pub proof fn law_signed(
    object: &JsonValue,
    keys: &Dict<String, Key>,
    r: Option<Dict<String, String>>,
    name: Seq<char>,
)
    requires
        call_ensures(sign_json, (object, keys), r),
    ensures
        r is Some ==> canonical_json(object@) is Some,
        r is Some ==> r->0@.contains_key(name) == keys@.contains_key(name),
        r is Some && keys@.contains_key(name) ==> ({
            let signature = keys@[name].signature(encode_utf8(canonical_json(object@)->0));
            signature is Some && r->0@[name] == base64_text(signature->0)
        }),
        canonical_json(object@) is None ==> r is None,
        canonical_json(object@) is Some && (forall|key: Seq<char>| #[trigger]
            keys@.contains_key(key) ==> keys@[key].readable()) ==> r is Some,
{
}

/// A key is made of a file whose name says that it is one of the known kind.
pub proof fn law_key_read(name: &str, contents: Vec<u8>, r: Option<Key>, rest: Seq<char>)
    requires
        call_ensures(Key::from_file, (name, contents), r),
    ensures
        r is Some ==> r->0@ == KeyView::Ed25519(contents@) && r->0@.readable(),
        !name@.contains(':') ==> r is None,
        name@ == "ed25519:"@ + rest && KeyView::Ed25519(contents@).readable() ==> r is Some,
{
    if name@ == "ed25519:"@ + rest {
        reveal_strlit("ed25519:");
        reveal_strlit("ed25519");
        crate::text::lemma_first_split(name@, ':', 7);
        assert(name@.take(7) =~= "ed25519"@);
    }
}

/// What is signed of a request to another server names the method, the path, both servers and what is sent.
pub proof fn law_request_told(
    method: Seq<char>,
    uri: Seq<char>,
    origin: Seq<char>,
    destination: Seq<char>,
    body: Option<Json>,
)
    ensures
        ({
            let value = request_json(method, uri, origin, destination, body);
            &&& member(value, "method"@) == Some(Json::Text(method))
            &&& member(value, "uri"@) == Some(Json::Text(uri))
            &&& member(value, "origin"@) == Some(Json::Text(origin))
            &&& member(value, "destination"@) == Some(Json::Text(destination))
            &&& member(value, "content"@) == body
        }),
{
    reveal_strlit("method");
    reveal_strlit("uri");
    reveal_strlit("origin");
    reveal_strlit("destination");
    reveal_strlit("content");
    assert("method"@.len() == 6 && "uri"@.len() == 3 && "origin"@.len() == 6
        && "destination"@.len() == 11 && "content"@.len() == 7);
    assert("method"@[0] != "origin"@[0]);
}

/// A request to another server carries a header for each key, with the signature by it of what the request is.
pub proof fn law_request_signed(
    method: &str,
    path: &str,
    domain: &str,
    host: &str,
    body: Option<&JsonValue>,
    keys: &Dict<String, Key>,
    r: Option<Vec<String>>,
    name: Seq<char>,
)
    requires
        call_ensures(server_request, (method, path, domain, host, body, keys), r),
        r is Some,
    ensures
        ({
            let request = request_json(
                method@,
                path@,
                domain@,
                host@,
                match body {
                    Some(b) => Some(b@),
                    None => None,
                },
            );
            let text = canonical_json(request);
            &&& text is Some
            &&& keys@.contains_key(name) ==> exists|i: int|
                0 <= i < r->0@.len() && (#[trigger] r->0@[i])@ == "origin="@ + domain@ + ",key="@
                    + name + ",sig="@ + base64_text(
                    keys@[name].signature(encode_utf8(text->0))->0,
                )
        }),
{
    let request = request_json(
        method@,
        path@,
        domain@,
        host@,
        match body {
            Some(b) => Some(b@),
            None => None,
        },
    );
    let made = signatures_of(request, keys@)->0;
    let headers = texts(r->0@);
    assert(crate::server_api::carries(headers, domain@, made));
    let order = choose|order: Seq<Seq<char>>|
        #![trigger order.no_duplicates()]
        order.no_duplicates() && order.to_set() == made.dom() && headers == Seq::new(
            order.len(),
            |i: int| signature_header(domain@, order[i], made[order[i]]),
        );
    if keys@.contains_key(name) {
        assert(made.dom().contains(name));
        assert(order.to_set().contains(name));
        assert(order.contains(name));
        let i = choose|i: int| 0 <= i < order.len() && order[i] == name;
        assert(headers.len() == order.len());
        assert(headers[i] == signature_header(domain@, name, made[name]));
        assert(r->0@[i]@ == headers[i]);
    }
}

/// Where the server keeps what it knows is read from its configuration.
pub proof fn law_storage_read(config: &Config, r: Option<StorageKind>)
    requires
        call_ensures(Config::storage_kind, (config,), r),
    ensures
        r == Some(StorageKind::Mem) <==> config.storage@ == "mem"@,
        r == Some(StorageKind::Sled) <==> config.storage@ == "sled"@,
{
    reveal_strlit("mem");
    reveal_strlit("sled");
    assert("mem"@.len() != "sled"@.len());
}

/// A server that starts in memory knows the three test users, nobody is logged in, and there are no rooms.
pub proof fn law_server_started(config: Config, r: Option<ServerState<MemStorage>>, name: Seq<char>)
    requires
        call_ensures(start_mem, (config,), r),
        r is Some,
    ensures
        r->0.config == config,
        r->0.db@.users.contains_key(name) <==> name == "alice"@ || name == "bob"@ || name
            == "carol"@,
        r->0.db@.users.contains_key(name) ==> crate::outside::hash_accepts(
            r->0.db@.users[name].password_hash,
            encode_utf8("password"@),
        ) == Some(true),
        r->0.db@.tokens == Map::<u128, Seq<char>>::empty(),
        r->0.db@.rooms.dom() == Set::<Seq<char>>::empty(),
{
    reveal_strlit("alice");
    reveal_strlit("bob");
    reveal_strlit("carol");
    assert("alice"@.len() != "bob"@.len() && "carol"@.len() != "bob"@.len());
    assert("alice"@[0] != "carol"@[0]);
    assert(r->0.db@.rooms.dom() =~= Set::<Seq<char>>::empty());
}

/// A member that is put into an object is the one that it then has.
pub proof fn law_member_put(
    object: &mut JsonValue,
    key: &str,
    value: JsonValue,
    found: Option<JsonValue>,
    other: Seq<char>,
)
    requires
        old(object)@ is Object,
        call_ensures(JsonValue::insert, (object, key, value), ()),
        call_ensures(JsonValue::get, (&*final(object), key), found),
    ensures
        found is Some && found->0@ == value@,
        other != key@ ==> member(final(object)@, other) == member(old(object)@, other),
{
}

} // verus!
