//! What clients are told when a request fails.
use crate::error::{ErrorResponse, JsonFault};
use crate::json::{Json, JsonValue};
use crate::outside::{password_error_text, password_words};
use crate::text::joined;
use crate::util::storage::{add_event_words, AddEventError};
use vstd::prelude::*;

verus! {

#[derive(Debug)]
pub enum ClientError {
    /// Forbidden access, e.g. joining a room without permission, failed login.
    Forbidden,
    /// The access token specified was not recognised.
    UnknownToken,
    /// No access token was specified for the request.
    MissingToken,
    /// Request contained valid JSON, but it was malformed in some way, e.g. missing required keys,
    /// invalid values for keys.
    BadJson(String),
    /// Request did not contain valid JSON.
    NotJson(String),
    /// No resource was found for this request.
    NotFound,
    /// Too many requests have been sent in a short period of time.
    LimitExceeded,
    /// A required URL parameter was missing from the request.
    MissingParam(String),
    /// A specified URL parameter has an invalid value.
    InvalidParam(String),
    /// The specified room version is not supported.
    UnsupportedRoomVersion,
    /// An encoded string in the URL was not valid UTF-8.
    UrlNotUtf8(String),
    /// A database error occurred.
    DbError(String),
    /// An I/O error occurred.
    IoError(String),
    /// A password error occurred.
    PasswordError(argon2::Error),
    /// The requested feature is unimplemented.
    Unimplemented,
    /// An invalid event was sent to a room.
    AddEventError(AddEventError),
    /// An unknown error occurred.
    Unknown(String),
}

/// The HTTP status for an error.
pub open spec fn status_of(e: ClientError) -> u16 {
    match e {
        ClientError::Forbidden | ClientError::UnknownToken | ClientError::MissingToken => 403,
        ClientError::NotFound => 404,
        ClientError::BadJson(_) | ClientError::NotJson(_) | ClientError::MissingParam(_) | ClientError::InvalidParam(_)
        | ClientError::UnsupportedRoomVersion | ClientError::UrlNotUtf8(_) | ClientError::PasswordError(_)
        | ClientError::Unknown(_) => 400,
        ClientError::LimitExceeded => 429,
        ClientError::DbError(_) | ClientError::IoError(_) | ClientError::AddEventError(_) => 500,
        ClientError::Unimplemented => 501,
    }
}

/// The Matrix error code for an error.
pub open spec fn errcode_of(e: ClientError) -> Seq<char> {
    match e {
        ClientError::Forbidden => "M_FORBIDDEN"@,
        ClientError::UnknownToken => "M_UNKNOWN_TOKEN"@,
        ClientError::MissingToken => "M_MISSING_TOKEN"@,
        ClientError::BadJson(_) => "M_BAD_JSON"@,
        ClientError::NotJson(_) => "M_NOT_JSON"@,
        ClientError::NotFound => "M_NOT_FOUND"@,
        ClientError::LimitExceeded => "M_LIMIT_EXCEEDED"@,
        ClientError::MissingParam(_) => "M_MISSING_PARAM"@,
        ClientError::InvalidParam(_) => "M_INVALID_PARAM"@,
        ClientError::UnsupportedRoomVersion => "M_UNSUPPORTED_ROOM_VERSION"@,
        ClientError::UrlNotUtf8(_) | ClientError::DbError(_) | ClientError::IoError(_) | ClientError::PasswordError(_)
        | ClientError::Unimplemented | ClientError::AddEventError(_) | ClientError::Unknown(_) => "M_UNKNOWN"@,
    }
}

/// The words for an error.
pub open spec fn words_of(e: ClientError) -> Seq<char> {
    match e {
        ClientError::Forbidden => "Forbidden access, e.g. joining a room without permission, failed login."@,
        ClientError::UnknownToken => "The access token specified was not recognised."@,
        ClientError::MissingToken => "No access token was specified for the request."@,
        ClientError::NotFound => "No resource was found for this request."@,
        ClientError::LimitExceeded => "Too many requests have been sent in a short period of time. Wait a while then try again."@,
        ClientError::UnsupportedRoomVersion => "The specified room version is not supported."@,
        ClientError::UrlNotUtf8(s) => "Malformed UTF-8 in URL: "@ + s@,
        ClientError::Unimplemented => "Feature unimplemented"@,
        ClientError::BadJson(s) | ClientError::NotJson(s) | ClientError::MissingParam(s) | ClientError::InvalidParam(s)
        | ClientError::DbError(s) | ClientError::IoError(s) | ClientError::Unknown(s) => s@,
        ClientError::AddEventError(e) => add_event_words(e@),
        ClientError::PasswordError(e) => password_words(e),
    }
}

impl ClientError {
    /// The HTTP status for the error.
    pub fn status_code(&self) -> (status: u16)
        ensures
            status == status_of(*self),
    {
        match self {
            ClientError::Forbidden | ClientError::UnknownToken | ClientError::MissingToken => 403,
            ClientError::NotFound => 404,
            ClientError::BadJson(_) | ClientError::NotJson(_) | ClientError::MissingParam(_)
            | ClientError::InvalidParam(_) | ClientError::UnsupportedRoomVersion | ClientError::UrlNotUtf8(_)
            | ClientError::PasswordError(_) | ClientError::Unknown(_) => 400,
            ClientError::LimitExceeded => 429,
            ClientError::DbError(_) | ClientError::IoError(_) | ClientError::AddEventError(_) => 500,
            ClientError::Unimplemented => 501,
        }
    }

    /// What a client is answered.
    pub fn error_response(&self) -> (r: ErrorResponse)
        ensures
            r.status == status_of(*self),
            r.errcode@ == errcode_of(*self),
            r.error@ == words_of(*self),
    {
        let (errcode, error) = match self {
            ClientError::Forbidden => (
                "M_FORBIDDEN",
                "Forbidden access, e.g. joining a room without permission, failed login.".to_owned(),
            ),
            ClientError::UnknownToken => (
                "M_UNKNOWN_TOKEN",
                "The access token specified was not recognised.".to_owned(),
            ),
            ClientError::MissingToken => (
                "M_MISSING_TOKEN",
                "No access token was specified for the request.".to_owned(),
            ),
            ClientError::BadJson(error) => ("M_BAD_JSON", error.clone()),
            ClientError::NotJson(error) => ("M_NOT_JSON", error.clone()),
            ClientError::NotFound => (
                "M_NOT_FOUND",
                "No resource was found for this request.".to_owned(),
            ),
            ClientError::LimitExceeded => (
                "M_LIMIT_EXCEEDED",
                "Too many requests have been sent in a short period of time. Wait a while then try again.".to_owned(),
            ),
            ClientError::MissingParam(error) => ("M_MISSING_PARAM", error.clone()),
            ClientError::InvalidParam(error) => ("M_INVALID_PARAM", error.clone()),
            ClientError::UnsupportedRoomVersion => (
                "M_UNSUPPORTED_ROOM_VERSION",
                "The specified room version is not supported.".to_owned(),
            ),
            ClientError::UrlNotUtf8(error) => (
                "M_UNKNOWN",
                joined("Malformed UTF-8 in URL: ", error.as_str()),
            ),
            ClientError::DbError(error) => ("M_UNKNOWN", error.clone()),
            ClientError::IoError(error) => ("M_UNKNOWN", error.clone()),
            ClientError::PasswordError(error) => ("M_UNKNOWN", password_error_text(error)),
            ClientError::Unimplemented => ("M_UNKNOWN", "Feature unimplemented".to_owned()),
            ClientError::AddEventError(error) => ("M_UNKNOWN", error.message()),
            ClientError::Unknown(error) => ("M_UNKNOWN", error.clone()),
        };
        ErrorResponse { status: self.status_code(), errcode: errcode.to_owned(), error }
    }

    /// The error for JSON that could not be read into a type.
    pub fn from_json_fault(fault: JsonFault, words: String) -> (e: ClientError)
        ensures
            e == (match fault {
                JsonFault::Data => ClientError::BadJson(words),
                JsonFault::Other => ClientError::NotJson(words),
            }),
    {
        match fault {
            JsonFault::Data => ClientError::BadJson(words),
            JsonFault::Other => ClientError::NotJson(words),
        }
    }

    /// The error for a request body that could not be taken: a JSON fault where there is one.
    pub fn from_payload(fault: Option<JsonFault>, words: String) -> (e: ClientError)
        ensures
            e == (match fault {
                Some(JsonFault::Data) => ClientError::BadJson(words),
                Some(JsonFault::Other) => ClientError::NotJson(words),
                None => ClientError::Unknown(words),
            }),
    {
        match fault {
            Some(f) => ClientError::from_json_fault(f, words),
            None => ClientError::Unknown(words),
        }
    }

    /// The error for bytes that are not UTF-8.
    pub fn from_utf8_error(words: String) -> (e: ClientError)
        ensures
            e == ClientError::NotJson(words),
    {
        ClientError::NotJson(words)
    }
}

impl ErrorResponse {
    /// The body of the answer.
    pub fn to_json(&self) -> (v: JsonValue)
        ensures
            v@ == Json::Object(
                Map::<Seq<char>, Json>::empty().insert(
                    "errcode"@,
                    Json::Text(self.errcode@),
                ).insert("error"@, Json::Text(self.error@)),
            ),
    {
        let mut v = JsonValue::object();
        v.insert("errcode", JsonValue::text(self.errcode.as_str()));
        v.insert("error", JsonValue::text(self.error.as_str()));
        v
    }
}

} // verus!
