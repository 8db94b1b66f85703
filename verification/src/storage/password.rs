//! Passwords as they are kept.
use crate::error::ErrorKind;
use crate::outside::{
    encoded_hash, hash_accepts, hash_password, is_checkable, random_u64, setting_of, settings_of,
    verify_hash, MAX_LANES, MAX_MEMORY,
};
use crate::text::{
    chars_of, find_part, read_number, split_once, starts_with, string_of, to_hex_padded,
};
use vstd::prelude::*;
use vstd::utf8::encode_utf8;

verus! {

/// A salt that is left to chance.
pub(crate) fn draw_salt() -> (salt: String)
    ensures
        encode_utf8(salt@).len() == 16,
{
    let chance: u64 = random_u64();
    proof {
        crate::text::lemma_hex_bytes(chance as nat, 16, false);
    }
    to_hex_padded(chance, 16, false)
}

/// Reads a setting of an encoded hash.
fn read_setting(text: &str, name: &str) -> (r: Option<u32>)
    ensures
        r == setting_of(text@, name@),
{
    if !starts_with(text, name) {
        return None;
    }
    let chars = chars_of(text);
    let from: usize = chars_of(name).len();
    let value = string_of(&chars, from, chars.len());
    assert(value@ =~= text@.skip(name@.len() as int));
    read_number(value.as_str())
}

/// Reads the settings that an encoded hash names: the memory in kibibytes, the passes and the lanes.
pub fn read_settings(encoded: &str) -> (r: Option<(u32, u32, u32)>)
    ensures
        r == settings_of(encoded@),
{
    let settings = match find_part(encoded, '$', "m=") {
        Some(settings) => settings,
        None => return None,
    };
    let (memory, more) = match split_once(settings.as_str(), ',') {
        Some(split) => split,
        None => return None,
    };
    let (passes, lanes) = match split_once(more.as_str(), ',') {
        Some(split) => split,
        None => return None,
    };
    let m = read_setting(memory.as_str(), "m=");
    let t = read_setting(passes.as_str(), "t=");
    let p = read_setting(lanes.as_str(), "p=");
    match (m, t, p) {
        (Some(m), Some(t), Some(p)) => Some((m, t, p)),
        _ => None,
    }
}

/// The encoded hash of a password.
pub struct PasswordHash {
    encoded: String,
}

impl View for PasswordHash {
    type V = Seq<char>;

    closed spec fn view(&self) -> Seq<char> {
        self.encoded@
    }
}

impl PasswordHash {
    #[verifier::type_invariant]
    spec fn is_made(self) -> bool {
        is_checkable(self.encoded@)
    }

    /// A hash that was kept; `None` where its text names no settings, or some with which it cannot be
    /// checked.
    pub fn from_stored(encoded: String) -> (r: Option<Self>)
        ensures
            match r {
                Some(hash) => hash@ == encoded@ && is_checkable(encoded@),
                None => !is_checkable(encoded@),
            },
    {
        match read_settings(encoded.as_str()) {
            Some((memory, _, lanes)) => {
                if memory <= MAX_MEMORY && memory as u64 * 1024 <= (usize::MAX / 2) as u64 && lanes
                    <= MAX_LANES {
                    Some(PasswordHash { encoded })
                } else {
                    None
                }
            },
            None => None,
        }
    }

    /// The text of the hash, to be kept.
    pub fn as_str(&self) -> (s: &str)
        ensures
            s@ == self@,
            is_checkable(s@),
    {
        proof {
            use_type_invariant(self);
        }
        self.encoded.as_str()
    }

    /// Whether a password is the one whose hash was kept, where one was. A text that cannot be read as
    /// a hash accepts nothing, nor does one that asks for more than a check may take.
    pub fn verify_stored(stored: Option<String>, password: &str) -> (r: bool)
        ensures
            r == (stored is Some && is_checkable(stored->0@) && hash_accepts(
                stored->0@,
                encode_utf8(password@),
            ) == Some(true)),
    {
        match stored {
            Some(encoded) => match PasswordHash::from_stored(encoded) {
                Some(hash) => hash.accepts(password),
                None => false,
            },
            None => false,
        }
    }

    /// The hash of a password with a salt that is left to chance.
    pub fn salted(password: &str) -> (r: Result<Self, ErrorKind>)
        ensures
            match r {
                Ok(hash) => hash_accepts(hash@, encode_utf8(password@)) == Some(true),
                Err(e) => e@ is PasswordError && encode_utf8(password@).len() > u32::MAX,
            },
    {
        let salt = draw_salt();
        PasswordHash::new(password, salt.as_str())
    }

    /// The hash of a password with a salt.
    pub fn new(password: &str, salt: &str) -> (r: Result<Self, ErrorKind>)
        ensures
            match r {
                Ok(hash) => encoded_hash(encode_utf8(password@), encode_utf8(salt@)) == Some(hash@)
                    && hash_accepts(hash@, encode_utf8(password@)) == Some(true),
                Err(e) => encoded_hash(encode_utf8(password@), encode_utf8(salt@)) is None
                    && e@ is PasswordError,
            },
            8 <= encode_utf8(salt@).len() <= u32::MAX && encode_utf8(password@).len() <= u32::MAX
                ==> r is Ok,
    {
        match hash_password(password.as_bytes(), salt.as_bytes()) {
            Ok(encoded) => Ok(PasswordHash { encoded }),
            Err(e) => Err(ErrorKind::PasswordError(e)),
        }
    }

    /// Whether it is the hash of a password.
    pub fn accepts(&self, password: &str) -> (r: bool)
        ensures
            r == (hash_accepts(self@, encode_utf8(password@)) == Some(true)),
    {
        proof {
            use_type_invariant(self);
        }
        match verify_hash(self.encoded.as_str(), password.as_bytes()) {
            Some(b) => b,
            None => false,
        }
    }
}

} // verus!
