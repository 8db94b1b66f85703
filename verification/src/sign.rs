//! Signing JSON.
use crate::dict::{distinct_keys, map_of, Dict};
use crate::json::{canonical_json, Json, JsonValue};
use crate::outside::{base64_text, base64_url, ed25519_signature, sign_ed25519};
use crate::text::{first_split, same, split_once};
use vstd::prelude::*;
use vstd::utf8::encode_utf8;

verus! {

/// A key to sign with, in PKCS#8 form.
pub enum Key {
    Ed25519(Vec<u8>),
}

/// The mathematical form of a `Key`.
pub enum KeyView {
    Ed25519(Seq<u8>),
}

impl View for Key {
    type V = KeyView;

    open spec fn view(&self) -> KeyView {
        match self {
            Key::Ed25519(bytes) => KeyView::Ed25519(bytes@),
        }
    }
}

impl KeyView {
    /// The signature of a message; there is none where the form of the key is refused.
    pub open spec fn signature(self, message: Seq<u8>) -> Option<Seq<u8>> {
        match self {
            KeyView::Ed25519(bytes) => ed25519_signature(bytes, message),
        }
    }

    /// Whether the form of the key is accepted: a key that can sign nothing can sign anything.
    pub open spec fn readable(self) -> bool {
        self.signature(Seq::empty()) is Some
    }
}

/// The kind of key that a key file holds, by the name of the file: what stands before the colon.
/// Only one kind is known.
pub open spec fn key_kind_known(file_name: Seq<char>) -> bool {
    first_split(file_name, ':') is Some && (first_split(file_name, ':')->0).0 == "ed25519"@
}

impl Key {
    /// The kind of the key.
    pub fn ty(&self) -> (ty: &'static str)
        ensures
            ty@ == "ed25519"@,
    {
        match self {
            Key::Ed25519(_) => "ed25519",
        }
    }

    /// The signature of a message; `None` where the form of the key is refused.
    pub fn sign(&self, v: &[u8]) -> (r: Option<Vec<u8>>)
        ensures
            match r {
                Some(signature) => self@.signature(v@) == Some(signature@),
                None => self@.signature(v@) is None,
            },
            r is Some == self@.readable(),
            r is Some ==> r->0@.len() == 64,
    {
        match self {
            Key::Ed25519(bytes) => sign_ed25519(bytes.as_slice(), v),
        }
    }

    /// The key that a key file holds; `None` where the name of the file is of no known kind of key,
    /// or where the form of the key is refused.
    pub fn from_file(file_name: &str, contents: Vec<u8>) -> (r: Option<Self>)
        ensures
            match r {
                Some(key) => key_kind_known(file_name@) && key@ == KeyView::Ed25519(contents@)
                    && key@.readable(),
                None => !key_kind_known(file_name@) || !KeyView::Ed25519(contents@).readable(),
            },
    {
        match split_once(file_name, ':') {
            Some((kind, _)) => {
                if !same(kind.as_str(), "ed25519") {
                    return None;
                }
                let key = Key::Ed25519(contents);
                let nothing: Vec<u8> = Vec::new();
                assert(nothing@ =~= Seq::<u8>::empty());
                match key.sign(nothing.as_slice()) {
                    Some(_) => Some(key),
                    None => None,
                }
            },
            None => None,
        }
    }
}

/// The signatures of a JSON value by some keys, each under the name of its key. There are none where
/// the value has no canonical form, or where the form of a key is refused.
pub open spec fn signatures_of(object: Json, keys: Map<Seq<char>, KeyView>) -> Option<
    Map<Seq<char>, Seq<char>>,
> {
    match canonical_json(object) {
        None => None,
        Some(json) => if forall|name: Seq<char>| #[trigger]
            keys.contains_key(name) ==> keys[name].signature(encode_utf8(json)) is Some {
            Some(
                Map::new(
                    |name: Seq<char>| keys.contains_key(name),
                    |name: Seq<char>|
                        base64_text(keys[name].signature(encode_utf8(json))->0),
                ),
            )
        } else {
            None
        },
    }
}

/// Signs a JSON value with some keys; `None` where the value has no canonical form, or where the form
/// of a key is refused.
pub fn sign_json(object: &JsonValue, keys: &Dict<String, Key>) -> (r: Option<Dict<String, String>>)
    ensures
        match r {
            Some(signatures) => signatures_of(object@, keys@) == Some(signatures@),
            None => signatures_of(object@, keys@) is None,
        },
        r is Some == (canonical_json(object@) is Some && forall|name: Seq<char>| #[trigger]
            keys@.contains_key(name) ==> keys@[name].readable()),
{
    let json = match object.canonical() {
        Some(json) => json,
        None => return None,
    };
    let message = json.as_str().as_bytes();
    let ghost listing = keys.listing();
    let ghost all = keys@;
    let mut signatures: Dict<String, String> = Dict::new();
    let n: usize = keys.len();
    let mut i: usize = 0;
    while i < n
        invariant
            i <= n == listing.len(),
            listing == keys.listing(),
            distinct_keys(listing),
            all == keys@,
            message@ == encode_utf8(json@),
            canonical_json(object@) == Some(json@),
            forall|name: Seq<char>| #[trigger]
                signatures@.contains_key(name) <==> exists|j: int|
                    0 <= j < i && (#[trigger] listing[j]).0 == name,
            forall|name: Seq<char>| #[trigger]
                signatures@.contains_key(name) ==> all[name].readable(),
            forall|name: Seq<char>| #[trigger]
                signatures@.contains_key(name) ==> all.contains_key(name) && all[name].signature(
                    message@,
                ) is Some && signatures@[name] == base64_text(all[name].signature(message@)->0),
        decreases n - i,
    {
        let ghost before = signatures@;
        let ghost name = listing[i as int].0;
        let e = keys.entry(i);
        match e.1.sign(message) {
            Some(signature) => {
                signatures.insert(e.0.clone(), base64_url(signature.as_slice()));
            },
            None => {
                assert(all.contains_key(name));
                return None;
            },
        }
        proof {
            assert forall|k: Seq<char>| #[trigger]
                signatures@.contains_key(k) <==> exists|j: int|
                    0 <= j < i + 1 && (#[trigger] listing[j]).0 == k by {
                if k == name {
                    assert(listing[i as int].0 == k);
                } else {
                    assert(signatures@.contains_key(k) == before.contains_key(k));
                }
            }
        }
        i += 1;
    }
    proof {
        assert forall|name: Seq<char>| #[trigger] all.contains_key(name) implies signatures@.contains_key(
            name,
        ) by {
            assert(map_of(listing).contains_key(name));
            let j = choose|j: int| 0 <= j < listing.len() && (#[trigger] listing[j]).0 == name;
            assert(listing[j].0 == name);
        }
        assert(signatures_of(object@, all) is Some);
        assert(signatures@ =~= signatures_of(object@, all)->0);
    }
    Some(signatures)
}

} // verus!
