//! The server and what it needs to answer requests.
use crate::error::{ErrorKind, ErrorView};
use crate::state::growth::at_home;
use crate::state::resolver::StateResolver;
use crate::storage::mem::MemStorage;
use crate::storage::{db_failed, Storage, StorageView};
use crate::text::same;
use crate::util::mxid::{is_localpart_char, mxid_of, parts_verdict, MatrixId};
use crate::util::storage::{with_test_users, StorageExt};
use vstd::prelude::*;

verus! {

/// How the server is set up.
pub struct Config {
    pub domain: String,
    pub bind_address: String,
    pub storage: String,
}

/// Where the server keeps what it knows.
#[derive(Debug, PartialEq, Eq, Structural, Clone, Copy)]
pub enum StorageKind {
    Mem,
    Sled,
}

/// The kind of storage with a name.
pub open spec fn storage_named(name: Seq<char>) -> Option<StorageKind> {
    if name == "mem"@ {
        Some(StorageKind::Mem)
    } else if name == "sled"@ {
        Some(StorageKind::Sled)
    } else {
        None
    }
}

impl Config {
    /// Where the server keeps what it knows; `None` where the name is of no kind of storage.
    pub fn storage_kind(&self) -> (r: Option<StorageKind>)
        ensures
            r == storage_named(self.storage@),
    {
        if same(self.storage.as_str(), "mem") {
            Some(StorageKind::Mem)
        } else if same(self.storage.as_str(), "sled") {
            Some(StorageKind::Sled)
        } else {
            None
        }
    }
}

/// The server.
pub struct ServerState<S: Storage> {
    pub config: Config,
    pub db: S,
    pub state_resolver: StateResolver,
}

/// Whether every user has a name that makes up an identifier with a domain, and every token belongs
/// to a user.
pub open spec fn names_valid(s: StorageView, domain: Seq<char>) -> bool {
    &&& forall|name: Seq<char>| #[trigger]
        s.users.contains_key(name) ==> parts_verdict(name, domain) is Ok
    &&& forall|token: u128| #[trigger]
        s.tokens.contains_key(token) ==> s.users.contains_key(s.tokens[token])
}

/// The user whom a token belongs to.
pub open spec fn caller_of(s: StorageView, token: u128) -> Result<Seq<char>, ErrorView> {
    if s.tokens.contains_key(token) {
        Ok(s.tokens[token])
    } else {
        Err(ErrorView::UnknownToken)
    }
}

/// Whether a result is the one that is wanted.
pub open spec fn gives<T: View>(
    r: Result<T, ErrorKind>,
    wanted: Result<T::V, ErrorView>,
) -> bool {
    match r {
        Ok(value) => wanted is Ok && wanted->Ok_0 == value@,
        Err(e) => wanted is Err && wanted->Err_0 == e@,
    }
}

impl<S: Storage> ServerState<S> {
    /// Whether what the server keeps fits together.
    pub open spec fn wf(&self) -> bool {
        &&& at_home(self.db@.rooms)
        &&& self.state_resolver.valid(self.db@.rooms)
        &&& names_valid(self.db@, self.config.domain@)
    }

    /// A server with a storage.
    pub fn new(config: Config, db: S) -> (state: Self)
        requires
            at_home(db@.rooms),
            names_valid(db@, config.domain@),
        ensures
            state.wf(),
            state.db == db,
            state.config == config,
    {
        ServerState { config, db, state_resolver: StateResolver::new() }
    }

    /// The name of the user whom a token belongs to.
    pub fn authenticate(&self, token: u128) -> (r: Result<String, ErrorKind>)
        ensures
            if db_failed(r) {
                !self.db.reliable()
            } else {
                gives(r, caller_of(self.db@, token))
            },
    {
        match self.db.try_auth(token) {
            Ok(Some(username)) => Ok(username),
            Ok(None) => Err(ErrorKind::UnknownToken),
            Err(e) => Err(e),
        }
    }

    /// The name and the identifier of the user whom a token belongs to.
    pub fn identify(&self, token: u128) -> (r: Result<(String, MatrixId), ErrorKind>)
        requires
            self.wf(),
        ensures
            match r {
                Ok((username, user_id)) => caller_of(self.db@, token) == Ok::<_, ErrorView>(
                    username@,
                ) && user_id@ == mxid_of(username@, self.config.domain@)
                    && self.db@.users.contains_key(username@),
                Err(e) => if db_failed(r) {
                    !self.db.reliable()
                } else {
                    caller_of(self.db@, token) == Err::<Seq<char>, _>(e@)
                },
            },
    {
        match self.authenticate(token) {
            Ok(username) => {
                assert(self.db@.users.contains_key(username@));
                let user_id = MatrixId::new(username.as_str(), self.config.domain.as_str());
                Ok((username, user_id.unwrap()))
            },
            Err(e) => Err(e),
        }
    }
}

/// A server that keeps everything in memory, with the test users; `None` where the domain is no
/// server name, or too long for them.
pub fn start_mem(config: Config) -> (r: Option<ServerState<MemStorage>>)
    ensures
        match r {
            Some(state) => state.wf() && state.config == config && parts_verdict(
                "alice"@,
                config.domain@,
            ) is Ok && with_test_users(empty_storage(), state.db@),
            None => parts_verdict("alice"@, config.domain@) is Err,
        },
{
    match MatrixId::validate_parts("alice", config.domain.as_str()) {
        Ok(()) => {},
        Err(_) => return None,
    }
    let mut db = MemStorage::new();
    assert(db@ =~= empty_storage());
    match db.create_test_users() {
        Ok(()) => {
            proof {
                lemma_test_names(config.domain@);
            }
            Some(ServerState::new(config, db))
        },
        Err(_) => {
            assert(false);
            None
        },
    }
}

/// A storage in which nothing has happened.
pub open spec fn empty_storage() -> StorageView {
    StorageView {
        users: Map::empty(),
        tokens: Map::empty(),
        txns: Set::empty(),
        batches: Map::empty(),
        rooms: Map::empty(),
    }
}

proof fn lemma_test_names(domain: Seq<char>)
    requires
        parts_verdict("alice"@, domain) is Ok,
    ensures
        parts_verdict("bob"@, domain) is Ok,
        parts_verdict("carol"@, domain) is Ok,
{
    reveal_strlit("alice");
    reveal_strlit("bob");
    reveal_strlit("carol");
    assert forall|i: int| 0 <= i < "bob"@.len() implies is_localpart_char(
        #[trigger] "bob"@[i],
    ) by {}
    assert forall|i: int| 0 <= i < "carol"@.len() implies is_localpart_char(
        #[trigger] "carol"@[i],
    ) by {}
}

} // verus!
