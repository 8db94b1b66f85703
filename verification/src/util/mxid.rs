//! Matrix user identifiers.
use crate::dict::{Duplicate, Key};
use crate::text::{chars_of, first_split, split_once};
use vstd::prelude::*;

verus! {

/// A Matrix user identifier, such as `@alice:example.org`.
pub struct MatrixId(String);

/// Why a text is no Matrix identifier.
#[derive(Debug, PartialEq, Eq, Structural, Clone, Copy)]
pub enum MxidError {
    /// A Matrix ID can only be 255 characters long, including the '@', localpart, ':' and domain.
    TooLong,
    /// A Matrix ID can only have lowercase letters, numbers, and `-_.=/`.
    InvalidChar,
    /// A Matrix ID must begin with an '@'.
    NoLeadingAt,
    /// A Matrix ID must contain exactly one colon.
    WrongNumberOfColons,
    /// A Matrix ID must contain a valid domain name.
    InvalidDomain,
}

/// The words for an `MxidError`.
pub open spec fn mxid_words(e: MxidError) -> Seq<char> {
    match e {
        MxidError::TooLong => "A Matrix ID can only be 255 characters long, including the '@', localpart, ':' and domain."@,
        MxidError::InvalidChar => "A Matrix ID can only have lowercase letters, numbers, and `-_.=/`."@,
        MxidError::NoLeadingAt => "A Matrix ID must begin with an '@'."@,
        MxidError::WrongNumberOfColons => "A Matrix ID must contain exactly one colon."@,
        MxidError::InvalidDomain => "A Matrix ID must contain a valid domain name."@,
    }
}

impl MxidError {
    /// The words for the error.
    pub fn message(&self) -> (words: String)
        ensures
            words@ == mxid_words(*self),
    {
        match self {
            MxidError::TooLong => "A Matrix ID can only be 255 characters long, including the '@', localpart, ':' and domain.".to_owned(),
            MxidError::InvalidChar => "A Matrix ID can only have lowercase letters, numbers, and `-_.=/`.".to_owned(),
            MxidError::NoLeadingAt => "A Matrix ID must begin with an '@'.".to_owned(),
            MxidError::WrongNumberOfColons => "A Matrix ID must contain exactly one colon.".to_owned(),
            MxidError::InvalidDomain => "A Matrix ID must contain a valid domain name.".to_owned(),
        }
    }
}

pub open spec fn is_lower(c: char) -> bool {
    'a' <= c <= 'z'
}

pub open spec fn is_digit(c: char) -> bool {
    '0' <= c <= '9'
}

/// Whether a character may stand in a localpart.
pub open spec fn is_localpart_char(c: char) -> bool {
    is_lower(c) || is_digit(c) || c == '-' || c == '_' || c == '.' || c == '=' || c == '/'
}

/// Whether a character may stand in a server name.
pub open spec fn is_server_name_char(c: char) -> bool {
    is_lower(c) || 'A' <= c <= 'Z' || is_digit(c) || c == '-' || c == '.'
}

/// A server name has one to 255 letters, digits, hyphens and dots.
pub open spec fn is_server_name(s: Seq<char>) -> bool {
    1 <= s.len() <= 255 && forall|i: int| 0 <= i < s.len() ==> is_server_name_char(#[trigger] s[i])
}

/// Whether a localpart and a domain make up a Matrix identifier, and if not, why.
pub open spec fn parts_verdict(localpart: Seq<char>, domain: Seq<char>) -> Result<(), MxidError> {
    if exists|i: int| 0 <= i < localpart.len() && !is_localpart_char(#[trigger] localpart[i]) {
        Err(MxidError::InvalidChar)
    } else if !is_server_name(domain) {
        Err(MxidError::InvalidDomain)
    } else if localpart.len() + domain.len() + 2 > 255 {
        Err(MxidError::TooLong)
    } else {
        Ok(())
    }
}

/// The identifier made of a localpart and a domain.
pub open spec fn mxid_of(localpart: Seq<char>, domain: Seq<char>) -> Seq<char> {
    seq!['@'] + localpart + seq![':'] + domain
}

/// Whether a text is a Matrix identifier, and if not, why.
pub open spec fn mxid_verdict(s: Seq<char>) -> Result<(), MxidError> {
    if s.len() == 0 || s[0] != '@' {
        Err(MxidError::NoLeadingAt)
    } else {
        match first_split(s.skip(1), ':') {
            None => Err(MxidError::WrongNumberOfColons),
            Some((localpart, domain)) => if domain.contains(':') {
                Err(MxidError::WrongNumberOfColons)
            } else {
                parts_verdict(localpart, domain)
            },
        }
    }
}

/// The localpart of an identifier.
pub open spec fn localpart_of(id: Seq<char>) -> Seq<char> {
    (first_split(id.skip(1), ':')->0).0
}

/// The domain of an identifier.
pub open spec fn domain_of(id: Seq<char>) -> Seq<char> {
    (first_split(id.skip(1), ':')->0).1
}

/// An identifier is taken apart into the localpart and the domain that it was made of.
pub proof fn lemma_parts(localpart: Seq<char>, domain: Seq<char>)
    requires
        parts_verdict(localpart, domain) is Ok,
    ensures
        mxid_verdict(mxid_of(localpart, domain)) is Ok,
        localpart_of(mxid_of(localpart, domain)) == localpart,
        domain_of(mxid_of(localpart, domain)) == domain,
{
    let id = mxid_of(localpart, domain);
    let rest = id.skip(1);
    assert(rest =~= localpart + seq![':'] + domain);
    assert forall|i: int| 0 <= i < localpart.len() implies #[trigger] localpart[i] != ':' by {
        assert(is_localpart_char(localpart[i]));
    }
    crate::text::lemma_first_split(rest, ':', localpart.len() as int);
    assert(rest.take(localpart.len() as int) =~= localpart);
    assert(rest.skip(localpart.len() as int + 1) =~= domain);
    assert(!domain.contains(':')) by {
        if domain.contains(':') {
            let i = choose|i: int| 0 <= i < domain.len() && domain[i] == ':';
            assert(is_server_name_char(domain[i]));
        }
    }
}

/// A text is a Matrix identifier exactly where it is made of a valid localpart and domain.
pub proof fn lemma_mxid_made_of_parts(s: Seq<char>)
    requires
        mxid_verdict(s) is Ok,
    ensures
        parts_verdict(localpart_of(s), domain_of(s)) is Ok,
        s == mxid_of(localpart_of(s), domain_of(s)),
{
    let rest = s.skip(1);
    crate::text::lemma_split_joins(rest, ':');
    assert(s =~= seq!['@'] + rest);
    assert(s =~= mxid_of(localpart_of(s), domain_of(s)));
}

impl View for MatrixId {
    type V = Seq<char>;

    closed spec fn view(&self) -> Seq<char> {
        self.0@
    }
}

impl Duplicate for MatrixId {
    fn duplicate(&self) -> (copy: Self) {
        proof {
            use_type_invariant(self);
        }
        MatrixId(self.0.clone())
    }
}

impl Key for MatrixId {
    fn same_key(&self, other: &Self) -> (r: bool) {
        self.0 == other.0
    }
}

impl Clone for MatrixId {
    fn clone(&self) -> (copy: Self)
        ensures
            copy@ == self@,
    {
        self.duplicate()
    }
}

impl MatrixId {
    #[verifier::type_invariant]
    spec fn well_formed(self) -> bool {
        mxid_verdict(self.0@) is Ok
    }

    /// The identifier made of a localpart and a domain.
    pub fn new(localpart: &str, domain: &str) -> (r: Result<Self, MxidError>)
        ensures
            match r {
                Ok(id) => parts_verdict(localpart@, domain@) is Ok && id@ == mxid_of(
                    localpart@,
                    domain@,
                ),
                Err(e) => parts_verdict(localpart@, domain@) == Err::<(), MxidError>(e),
            },
    {
        match Self::validate_parts(localpart, domain) {
            Ok(()) => {
                let mut s: String = String::new();
                s.push('@');
                s.append(localpart);
                s.push(':');
                s.append(domain);
                assert(s@ =~= mxid_of(localpart@, domain@));
                proof {
                    lemma_parts(localpart@, domain@);
                }
                Ok(MatrixId(s))
            },
            Err(e) => Err(e),
        }
    }

    /// The identifier that a text spells out.
    pub fn parse(text: &str) -> (r: Result<Self, MxidError>)
        ensures
            match r {
                Ok(id) => mxid_verdict(text@) is Ok && id@ == text@,
                Err(e) => mxid_verdict(text@) == Err::<(), MxidError>(e),
            },
    {
        match Self::validate_all(text) {
            Ok(()) => Ok(MatrixId(text.to_owned())),
            Err(e) => Err(e),
        }
    }

    pub fn as_str(&self) -> (s: &str)
        ensures
            s@ == self@,
    {
        self.0.as_str()
    }

    pub fn to_string(self) -> (s: String)
        ensures
            s@ == self@,
    {
        self.0
    }

    pub fn clone_inner(&self) -> (s: String)
        ensures
            s@ == self@,
    {
        self.0.clone()
    }

    /// The text of an identifier is valid.
    pub fn assert_valid(&self)
        ensures
            mxid_verdict(self@) is Ok,
    {
        proof {
            use_type_invariant(self);
        }
    }

    pub fn localpart(&self) -> (s: &str)
        ensures
            s@ == localpart_of(self@),
            mxid_verdict(self@) is Ok,
    {
        proof {
            use_type_invariant(self);
            lemma_mxid_made_of_parts(self@);
        }
        let colon: usize = self.colon();
        let s = self.0.as_str().substring_char(1, colon);
        assert(s@ =~= localpart_of(self@));
        s
    }

    pub fn domain(&self) -> (s: &str)
        ensures
            s@ == domain_of(self@),
            mxid_verdict(self@) is Ok,
    {
        proof {
            use_type_invariant(self);
            lemma_mxid_made_of_parts(self@);
        }
        let colon: usize = self.colon();
        let end: usize = self.0.as_str().unicode_len();
        let s = self.0.as_str().substring_char(colon + 1, end);
        assert(s@ =~= domain_of(self@));
        s
    }

    fn colon(&self) -> (at: usize)
        ensures
            at == 1 + localpart_of(self@).len(),
            at < self@.len(),
    {
        proof {
            use_type_invariant(self);
            lemma_mxid_made_of_parts(self@);
        }
        let ghost localpart = localpart_of(self@);
        let chars = chars_of(self.0.as_str());
        let mut at: usize = 1;
        proof {
            assert forall|j: int| 0 <= j < localpart.len() implies #[trigger] localpart[j]
                != ':' by {
                assert(is_localpart_char(localpart[j]));
            }
        }
        while chars[at] != ':'
            invariant
                chars@ == self@,
                self@ == mxid_of(localpart, domain_of(self@)),
                forall|j: int| 0 <= j < localpart.len() ==> #[trigger] localpart[j] != ':',
                1 <= at <= 1 + localpart.len(),
                chars@.len() <= usize::MAX,
            decreases 1 + localpart.len() - at,
        {
            assert(chars@[1 + localpart.len() as int] == ':');
            at += 1;
        }
        proof {
            if at < 1 + localpart.len() {
                assert(self@[at as int] == localpart[at - 1]);
            }
        }
        at
    }

    /// Verifies that a localpart and domain could together form a valid Matrix ID.
    pub fn validate_parts(localpart: &str, domain: &str) -> (r: Result<(), MxidError>)
        ensures
            r == parts_verdict(localpart@, domain@),
    {
        let local = chars_of(localpart);
        for i in 0..local.len()
            invariant
                local@ == localpart@,
                forall|j: int| 0 <= j < i ==> is_localpart_char(#[trigger] localpart@[j]),
        {
            let c = local[i];
            if !(('a' <= c && c <= 'z') || ('0' <= c && c <= '9') || c == '-' || c == '_' || c
                == '.' || c == '=' || c == '/') {
                assert(!is_localpart_char(localpart@[i as int]));
                return Err(MxidError::InvalidChar);
            }
        }
        let server = chars_of(domain);
        if !Self::names_server(&server) {
            return Err(MxidError::InvalidDomain);
        }
        if local.len() > 253 || local.len() + server.len() + 2 > 255 {
            return Err(MxidError::TooLong);
        }
        Ok(())
    }

    fn names_server(name: &Vec<char>) -> (r: bool)
        ensures
            r == is_server_name(name@),
    {
        if name.len() == 0 || name.len() > 255 {
            return false;
        }
        for i in 0..name.len()
            invariant
                forall|j: int| 0 <= j < i ==> is_server_name_char(#[trigger] name@[j]),
        {
            let c = name[i];
            if !(('a' <= c && c <= 'z') || ('A' <= c && c <= 'Z') || ('0' <= c && c <= '9') || c
                == '-' || c == '.') {
                assert(!is_server_name_char(name@[i as int]));
                return false;
            }
        }
        true
    }

    /// Verifies that a `&str` forms a valid Matrix ID.
    pub fn validate_all(mxid: &str) -> (r: Result<(), MxidError>)
        ensures
            r == mxid_verdict(mxid@),
    {
        let chars = chars_of(mxid);
        if chars.len() == 0 || chars[0] != '@' {
            return Err(MxidError::NoLeadingAt);
        }
        let rest = mxid.substring_char(1, chars.len());
        assert(rest@ =~= mxid@.skip(1));
        match split_once(rest, ':') {
            None => Err(MxidError::WrongNumberOfColons),
            Some((localpart, domain)) => {
                match split_once(domain.as_str(), ':') {
                    Some(_) => Err(MxidError::WrongNumberOfColons),
                    None => Self::validate_parts(localpart.as_str(), domain.as_str()),
                }
            },
        }
    }
}

impl TryFrom<String> for MatrixId {
    type Error = MxidError;

    fn try_from(value: String) -> (r: Result<Self, MxidError>) {
        match MatrixId::validate_all(value.as_str()) {
            Ok(()) => Ok(MatrixId(value)),
            Err(e) => Err(e),
        }
    }
}

impl vstd::std_specs::convert::TryFromSpecImpl<String> for MatrixId {
    open spec fn obeys_try_from_spec() -> bool {
        true
    }

    closed spec fn try_from_spec(value: String) -> Result<Self, MxidError> {
        match mxid_verdict(value@) {
            Ok(()) => Ok(MatrixId(value)),
            Err(e) => Err(e),
        }
    }
}

/// A text is taken for an identifier as it is where it is one, and refused for the reason why it is
/// none.
pub proof fn law_taken_as_it_is(value: String)
    ensures
        match <MatrixId as vstd::std_specs::convert::TryFromSpec<String>>::try_from_spec(value) {
            Ok(id) => mxid_verdict(value@) is Ok && id@ == value@,
            Err(e) => mxid_verdict(value@) == Err::<(), MxidError>(e),
        },
{
}

} // verus!
