//! What can go wrong.
use crate::outside::{password_error_text, password_words};
use crate::text::joined;
use crate::util::storage::{AddEventError, AddEventView};
use vstd::prelude::*;

verus! {

/// All errors of the server.
#[derive(Debug)]
pub enum ErrorKind {
    /// Forbidden access, e.g. joining a room without permission, failed login.
    Forbidden,
    /// The access token specified was not recognised.
    UnknownToken,
    /// No access token was specified for the request.
    MissingToken,
    /// Request contained valid JSON, but it was malformed in some way.
    BadJson(String),
    /// Request did not contain valid JSON.
    NotJson(String),
    /// No resource was found for this request.
    NotFound,
    /// The specified user was not found on this server.
    UserNotFound,
    /// The specified room was not found on this server.
    RoomNotFound,
    /// That username is already taken.
    UsernameTaken,
    /// Too many requests have been sent in a short period of time.
    LimitExceeded,
    /// A required URL parameter was missing from the request.
    MissingParam(String),
    /// A specified URL parameter has an invalid value.
    InvalidParam(String),
    /// The specified room version is not supported.
    UnsupportedRoomVersion,
    /// The specified transaction has already been started.
    TxnIdExists,
    /// An encoded string in the URL was not valid UTF-8.
    UrlNotUtf8(String),
    /// The database failed.
    SledError(String),
    /// What the database holds could not be read or written.
    BincodeError(String),
    /// A password error occurred.
    PasswordError(argon2::Error),
    /// The requested feature is unimplemented.
    Unimplemented,
    /// An invalid event was sent to a room.
    AddEventError(AddEventError),
    /// An unknown error occurred.
    Unknown(String),
}

/// What an error says.
pub enum ErrorView {
    Forbidden,
    UnknownToken,
    MissingToken,
    BadJson(Seq<char>),
    NotJson(Seq<char>),
    NotFound,
    UserNotFound,
    RoomNotFound,
    UsernameTaken,
    LimitExceeded,
    MissingParam(Seq<char>),
    InvalidParam(Seq<char>),
    UnsupportedRoomVersion,
    TxnIdExists,
    UrlNotUtf8(Seq<char>),
    SledError(Seq<char>),
    BincodeError(Seq<char>),
    PasswordError(Seq<char>),
    Unimplemented,
    AddEventError(AddEventView),
    Unknown(Seq<char>),
}

impl View for ErrorKind {
    type V = ErrorView;

    open spec fn view(&self) -> ErrorView {
        match self {
            ErrorKind::Forbidden => ErrorView::Forbidden,
            ErrorKind::UnknownToken => ErrorView::UnknownToken,
            ErrorKind::MissingToken => ErrorView::MissingToken,
            ErrorKind::BadJson(s) => ErrorView::BadJson(s@),
            ErrorKind::NotJson(s) => ErrorView::NotJson(s@),
            ErrorKind::NotFound => ErrorView::NotFound,
            ErrorKind::UserNotFound => ErrorView::UserNotFound,
            ErrorKind::RoomNotFound => ErrorView::RoomNotFound,
            ErrorKind::UsernameTaken => ErrorView::UsernameTaken,
            ErrorKind::LimitExceeded => ErrorView::LimitExceeded,
            ErrorKind::MissingParam(s) => ErrorView::MissingParam(s@),
            ErrorKind::InvalidParam(s) => ErrorView::InvalidParam(s@),
            ErrorKind::UnsupportedRoomVersion => ErrorView::UnsupportedRoomVersion,
            ErrorKind::TxnIdExists => ErrorView::TxnIdExists,
            ErrorKind::UrlNotUtf8(s) => ErrorView::UrlNotUtf8(s@),
            ErrorKind::SledError(s) => ErrorView::SledError(s@),
            ErrorKind::BincodeError(s) => ErrorView::BincodeError(s@),
            ErrorKind::PasswordError(e) => ErrorView::PasswordError(password_words(*e)),
            ErrorKind::Unimplemented => ErrorView::Unimplemented,
            ErrorKind::AddEventError(e) => ErrorView::AddEventError(e@),
            ErrorKind::Unknown(s) => ErrorView::Unknown(s@),
        }
    }
}

/// Whether an error comes from the database itself.
pub open spec fn is_database_error(e: ErrorView) -> bool {
    e is SledError || e is BincodeError
}

/// The HTTP status for an error.
pub open spec fn status_of(e: ErrorView) -> u16 {
    match e {
        ErrorView::Forbidden | ErrorView::UnknownToken | ErrorView::MissingToken
        | ErrorView::UsernameTaken => 403,
        ErrorView::NotFound | ErrorView::UserNotFound | ErrorView::RoomNotFound => 404,
        ErrorView::BadJson(_) | ErrorView::NotJson(_) | ErrorView::MissingParam(_)
        | ErrorView::InvalidParam(_) | ErrorView::UnsupportedRoomVersion
        | ErrorView::UrlNotUtf8(_) | ErrorView::PasswordError(_) | ErrorView::Unknown(_)
        | ErrorView::TxnIdExists => 400,
        ErrorView::LimitExceeded => 429,
        ErrorView::AddEventError(_) | ErrorView::SledError(_) | ErrorView::BincodeError(_) => 500,
        ErrorView::Unimplemented => 501,
    }
}

/// The Matrix error code for an error.
pub open spec fn errcode_of(e: ErrorView) -> Seq<char> {
    match e {
        ErrorView::Forbidden => "M_FORBIDDEN"@,
        ErrorView::UnknownToken => "M_UNKNOWN_TOKEN"@,
        ErrorView::MissingToken => "M_MISSING_TOKEN"@,
        ErrorView::BadJson(_) => "M_BAD_JSON"@,
        ErrorView::NotJson(_) => "M_NOT_JSON"@,
        ErrorView::NotFound | ErrorView::UserNotFound | ErrorView::RoomNotFound => "M_NOT_FOUND"@,
        ErrorView::UsernameTaken => "M_USER_IN_USE"@,
        ErrorView::LimitExceeded => "M_LIMIT_EXCEEDED"@,
        ErrorView::MissingParam(_) => "M_MISSING_PARAM"@,
        ErrorView::InvalidParam(_) => "M_INVALID_PARAM"@,
        ErrorView::UnsupportedRoomVersion => "M_UNSUPPORTED_ROOM_VERSION"@,
        ErrorView::TxnIdExists | ErrorView::UrlNotUtf8(_) | ErrorView::PasswordError(_)
        | ErrorView::Unimplemented | ErrorView::AddEventError(_) | ErrorView::Unknown(_)
        | ErrorView::SledError(_) | ErrorView::BincodeError(_) => "M_UNKNOWN"@,
    }
}

/// The words for an error.
pub open spec fn words_of(e: ErrorView) -> Seq<char> {
    match e {
        ErrorView::Forbidden => "Forbidden access, e.g. joining a room without permission, failed login."@,
        ErrorView::UnknownToken => "The access token specified was not recognised."@,
        ErrorView::MissingToken => "No access token was specified for the request."@,
        ErrorView::BadJson(s) => "Request contained valid JSON, but it was malformed in some way, e.g. missing required keys, invalid values for keys: "@ + s,
        ErrorView::NotJson(s) => "Request did not contain valid JSON: "@ + s,
        ErrorView::NotFound => "No resource was found for this request."@,
        ErrorView::UserNotFound => "The specified user was not found on this server."@,
        ErrorView::RoomNotFound => "The specified room was not found on this server."@,
        ErrorView::UsernameTaken => "That username is already taken."@,
        ErrorView::LimitExceeded => "Too many requests have been sent in a short period of time."@,
        ErrorView::MissingParam(s) => "A required URL parameter was missing from the request: "@ + s,
        ErrorView::InvalidParam(s) => "A specified URL parameter has an invalid value: "@ + s,
        ErrorView::UnsupportedRoomVersion => "The specified room version is not supported."@,
        ErrorView::TxnIdExists => "The specified transaction has already been started."@,
        ErrorView::UrlNotUtf8(s) => "An encoded string in the URL was not valid UTF-8: "@ + s,
        ErrorView::SledError(s) | ErrorView::BincodeError(s) => "A database error occurred: "@ + s + "."@,
        ErrorView::PasswordError(s) => "A password error occurred: "@ + s,
        ErrorView::Unimplemented => "The requested feature is unimplemented."@,
        ErrorView::AddEventError(e) => "An invalid event was sent to a room: "@ + crate::util::storage::add_event_words(e),
        ErrorView::Unknown(s) => "An unknown error occurred: "@ + s,
    }
}

/// What a client is answered when a request fails.
pub struct ErrorResponse {
    pub status: u16,
    pub errcode: String,
    pub error: String,
}

impl ErrorKind {
    /// The HTTP status for the error.
    pub fn status_code(&self) -> (status: u16)
        ensures
            status == status_of(self@),
    {
        match self {
            ErrorKind::Forbidden | ErrorKind::UnknownToken | ErrorKind::MissingToken
            | ErrorKind::UsernameTaken => 403,
            ErrorKind::NotFound | ErrorKind::UserNotFound | ErrorKind::RoomNotFound => 404,
            ErrorKind::BadJson(_) | ErrorKind::NotJson(_) | ErrorKind::MissingParam(_)
            | ErrorKind::InvalidParam(_) | ErrorKind::UnsupportedRoomVersion
            | ErrorKind::UrlNotUtf8(_) | ErrorKind::PasswordError(_) | ErrorKind::Unknown(_)
            | ErrorKind::TxnIdExists => 400,
            ErrorKind::LimitExceeded => 429,
            ErrorKind::AddEventError(_) | ErrorKind::SledError(_)
            | ErrorKind::BincodeError(_) => 500,
            ErrorKind::Unimplemented => 501,
        }
    }

    /// The Matrix error code for the error.
    pub fn errcode(&self) -> (code: &'static str)
        ensures
            code@ == errcode_of(self@),
    {
        match self {
            ErrorKind::Forbidden => "M_FORBIDDEN",
            ErrorKind::UnknownToken => "M_UNKNOWN_TOKEN",
            ErrorKind::MissingToken => "M_MISSING_TOKEN",
            ErrorKind::BadJson(_) => "M_BAD_JSON",
            ErrorKind::NotJson(_) => "M_NOT_JSON",
            ErrorKind::NotFound | ErrorKind::UserNotFound
            | ErrorKind::RoomNotFound => "M_NOT_FOUND",
            ErrorKind::UsernameTaken => "M_USER_IN_USE",
            ErrorKind::LimitExceeded => "M_LIMIT_EXCEEDED",
            ErrorKind::MissingParam(_) => "M_MISSING_PARAM",
            ErrorKind::InvalidParam(_) => "M_INVALID_PARAM",
            ErrorKind::UnsupportedRoomVersion => "M_UNSUPPORTED_ROOM_VERSION",
            ErrorKind::TxnIdExists | ErrorKind::UrlNotUtf8(_) | ErrorKind::PasswordError(_)
            | ErrorKind::Unimplemented | ErrorKind::AddEventError(_) | ErrorKind::Unknown(_)
            | ErrorKind::SledError(_) | ErrorKind::BincodeError(_) => "M_UNKNOWN",
        }
    }

    /// The words for the error.
    pub fn message(&self) -> (words: String)
        ensures
            words@ == words_of(self@),
    {
        match self {
            ErrorKind::Forbidden => "Forbidden access, e.g. joining a room without permission, failed login.".to_owned(),
            ErrorKind::UnknownToken => "The access token specified was not recognised.".to_owned(),
            ErrorKind::MissingToken => "No access token was specified for the request.".to_owned(),
            ErrorKind::BadJson(s) => joined("Request contained valid JSON, but it was malformed in some way, e.g. missing required keys, invalid values for keys: ", s.as_str()),
            ErrorKind::NotJson(s) => joined("Request did not contain valid JSON: ", s.as_str()),
            ErrorKind::NotFound => "No resource was found for this request.".to_owned(),
            ErrorKind::UserNotFound => "The specified user was not found on this server.".to_owned(),
            ErrorKind::RoomNotFound => "The specified room was not found on this server.".to_owned(),
            ErrorKind::UsernameTaken => "That username is already taken.".to_owned(),
            ErrorKind::LimitExceeded => "Too many requests have been sent in a short period of time.".to_owned(),
            ErrorKind::MissingParam(s) => joined("A required URL parameter was missing from the request: ", s.as_str()),
            ErrorKind::InvalidParam(s) => joined("A specified URL parameter has an invalid value: ", s.as_str()),
            ErrorKind::UnsupportedRoomVersion => "The specified room version is not supported.".to_owned(),
            ErrorKind::TxnIdExists => "The specified transaction has already been started.".to_owned(),
            ErrorKind::UrlNotUtf8(s) => joined("An encoded string in the URL was not valid UTF-8: ", s.as_str()),
            ErrorKind::SledError(s) | ErrorKind::BincodeError(s) => {
                let words = joined("A database error occurred: ", s.as_str());
                joined(words.as_str(), ".")
            },
            ErrorKind::PasswordError(e) => {
                let text = password_error_text(e);
                joined("A password error occurred: ", text.as_str())
            },
            ErrorKind::Unimplemented => "The requested feature is unimplemented.".to_owned(),
            ErrorKind::AddEventError(e) => {
                let text = e.message();
                joined("An invalid event was sent to a room: ", text.as_str())
            },
            ErrorKind::Unknown(s) => joined("An unknown error occurred: ", s.as_str()),
        }
    }

    /// What a client is answered: the words for the error, and on the next line the trace of where it
    /// came up.
    pub fn error_response(&self, trace: &str) -> (r: ErrorResponse)
        ensures
            r.status == status_of(self@),
            r.errcode@ == errcode_of(self@),
            r.error@ == words_of(self@) + "\n"@ + trace@,
    {
        let words = self.message();
        let line = joined(words.as_str(), "\n");
        ErrorResponse {
            status: self.status_code(),
            errcode: self.errcode().to_owned(),
            error: joined(line.as_str(), trace),
        }
    }

    /// Whether the error comes from the database itself.
    pub fn is_database(&self) -> (r: bool)
        ensures
            r == is_database_error(self@),
    {
        match self {
            ErrorKind::SledError(_) | ErrorKind::BincodeError(_) => true,
            _ => false,
        }
    }
}

/// Where a request that is JSON went wrong.
#[derive(PartialEq, Eq, Structural, Clone, Copy, Debug)]
pub enum JsonFault {
    /// The JSON is well formed and does not fit the type.
    Data,
    /// The JSON is not well formed, ends early, or could not be read.
    Other,
}

/// The error for JSON that could not be read into a type.
pub open spec fn fault_error(fault: JsonFault, words: Seq<char>) -> ErrorView {
    match fault {
        JsonFault::Data => ErrorView::BadJson(words),
        JsonFault::Other => ErrorView::NotJson(words),
    }
}

impl ErrorKind {
    /// The error for JSON that could not be read into a type.
    pub fn from_json_fault(fault: JsonFault, words: String) -> (e: ErrorKind)
        ensures
            e@ == fault_error(fault, words@),
    {
        match fault {
            JsonFault::Data => ErrorKind::BadJson(words),
            JsonFault::Other => ErrorKind::NotJson(words),
        }
    }

    /// The error for a request body that could not be taken: a JSON fault where there is one.
    pub fn from_payload(fault: Option<JsonFault>, words: String) -> (e: ErrorKind)
        ensures
            e@ == (match fault {
                Some(f) => fault_error(f, words@),
                None => ErrorView::Unknown(words@),
            }),
    {
        match fault {
            Some(f) => ErrorKind::from_json_fault(f, words),
            None => ErrorKind::Unknown(words),
        }
    }

    /// The error for bytes that are not UTF-8.
    pub fn from_utf8_error(words: String) -> (e: ErrorKind)
        ensures
            e@ == ErrorView::NotJson(words@),
    {
        ErrorKind::NotJson(words)
    }
}

} // verus!
