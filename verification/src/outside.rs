//! Digests, encodings, passwords, tokens, signatures, chance and time.
use crate::text::{begins, first_split, first_with, hex_padded, number_of, parts};
use vstd::prelude::*;

verus! {

/// The SHA-256 digest of the bytes.
pub uninterp spec fn sha256_digest(data: Seq<u8>) -> Seq<u8>;

/// The URL-safe base64 text of the bytes, without padding.
pub uninterp spec fn base64_text(data: Seq<u8>) -> Seq<char>;

/// The encoded Argon2 hash of a password with a salt, under the default settings.
pub uninterp spec fn encoded_hash(password: Seq<u8>, salt: Seq<u8>) -> Option<Seq<char>>;

/// Whether an encoded Argon2 hash was made from a password; nothing where the encoded hash cannot
/// be read.
pub uninterp spec fn hash_accepts(encoded: Seq<char>, password: Seq<u8>) -> Option<bool>;

/// The hyphenated text of a UUID: its 32 hexadecimal digits in five groups.
pub open spec fn uuid_text(uuid: u128) -> Seq<char> {
    let digits = hex_padded(uuid as nat, 32, false);
    digits.subrange(0, 8) + seq!['-'] + digits.subrange(8, 12) + seq!['-'] + digits.subrange(12, 16)
        + seq!['-'] + digits.subrange(16, 20) + seq!['-'] + digits.subrange(20, 32)
}

/// The UUID that a text stands for.
pub uninterp spec fn uuid_parsed(text: Seq<char>) -> Option<u128>;

/// The Ed25519 signature of a message by a key pair in PKCS#8 form; nothing where the form is
/// refused.
pub uninterp spec fn ed25519_signature(pkcs8: Seq<u8>, message: Seq<u8>) -> Option<Seq<u8>>;

#[verifier::external_type_specification]
#[verifier::external_body]
pub struct ExArgonError(argon2::Error);

/// The words for an error of the password library.
pub uninterp spec fn password_words(e: argon2::Error) -> Seq<char>;

/// `ring::digest::digest` with `SHA256`, which gives 32 bytes.
#[verifier::external_body]
pub(crate) fn sha256(data: &[u8]) -> (r: Vec<u8>)
    ensures
        r@ == sha256_digest(data@),
        r@.len() == 32,
{
    ring::digest::digest(&ring::digest::SHA256, data).as_ref().to_vec()
}

/// How many characters unpadded base64 text takes for a number of bytes: four for each three bytes,
/// and two or three for one or two that are left over.
pub open spec fn base64_len(bytes: nat) -> nat {
    bytes / 3 * 4 + (if bytes % 3 == 0 {
        0nat
    } else {
        bytes % 3 + 1
    })
}

/// `base64::encode_config` with `URL_SAFE_NO_PAD`. It panics where the text does not fit in memory.
#[verifier::external_body]
pub(crate) fn base64_url(data: &[u8]) -> (r: String)
    requires
        data@.len() <= u16::MAX,
    ensures
        r@ == base64_text(data@),
        r@.len() == base64_len(data@.len()),
{
    base64::encode_config(data, base64::URL_SAFE_NO_PAD)
}

/// A setting in an encoded hash: its name and its value.
pub open spec fn setting_of(text: Seq<char>, name: Seq<char>) -> Option<u32> {
    if begins(text, name) {
        number_of(text.skip(name.len() as int))
    } else {
        None
    }
}

/// The settings that an encoded hash names between dollar signs, such as `m=4096,t=3,p=1`: the memory
/// in kibibytes, the passes and the lanes.
pub open spec fn settings_of(encoded: Seq<char>) -> Option<(u32, u32, u32)> {
    match first_with(parts(encoded, '$'), "m="@) {
        None => None,
        Some(settings) => match first_split(settings, ',') {
            None => None,
            Some((memory, more)) => match first_split(more, ',') {
                None => None,
                Some((passes, lanes)) => match (
                    setting_of(memory, "m="@),
                    setting_of(passes, "t="@),
                    setting_of(lanes, "p="@),
                ) {
                    (Some(m), Some(t), Some(p)) => Some((m, t, p)),
                    _ => None,
                },
            },
        },
    }
}

/// The most kibibytes that the check of a password may take.
pub const MAX_MEMORY: u32 = 0x40_0000;

/// The most threads that the check of a password may take.
pub const MAX_LANES: u32 = 1024;

/// Whether an encoded hash names settings with which it can be checked: no more memory than there may
/// be, nor than can be addressed, and no more lanes, each of which takes a thread, than there may be.
pub open spec fn is_checkable(encoded: Seq<char>) -> bool {
    match settings_of(encoded) {
        Some((m, t, p)) => m <= MAX_MEMORY && m * 1024 <= usize::MAX / 2 && p <= MAX_LANES,
        None => false,
    }
}

/// `argon2::hash_encoded` with the default settings, which are named in what it gives. It succeeds where
/// the lengths are within the limits of Argon2, and `argon2::verify_encoded` accepts the password for
/// what it gives.
#[verifier::external_body]
pub(crate) fn hash_password(password: &[u8], salt: &[u8]) -> (r: Result<String, argon2::Error>)
    ensures
        match r {
            Ok(s) => encoded_hash(password@, salt@) == Some(s@) && settings_of(s@) == Some(
                (4096u32, 3u32, 1u32),
            ) && hash_accepts(s@, password@) == Some(true),
            Err(_) => encoded_hash(password@, salt@) is None,
        },
        8 <= salt@.len() <= u32::MAX && password@.len() <= u32::MAX ==> r is Ok,
{
    argon2::hash_encoded(password, salt, &argon2::Config::default())
}

/// `argon2::verify_encoded`. An encoded hash names how much memory and how many threads it takes to
/// check it. Where it asks for more than there is, the call does not return.
#[verifier::external_body]
pub(crate) fn verify_hash(encoded: &str, password: &[u8]) -> (r: Option<bool>)
    requires
        is_checkable(encoded@),
    ensures
        r == hash_accepts(encoded@, password@),
{
    argon2::verify_encoded(encoded, password).ok()
}

/// The `Display` text of `argon2::Error`: it rests on the error alone.
#[verifier::external_body]
pub(crate) fn password_error_text(e: &argon2::Error) -> (r: String)
    ensures
        r@ == password_words(*e),
{
    format!("{}", e)
}

/// Whether a UUID is marked as one that was drawn at random: its version is 4, and its variant is the
/// common one.
pub open spec fn is_random_uuid(uuid: u128) -> bool {
    uuid / 0x1000_0000_0000_0000_0000 % 16 == 4 && uuid / 0x4000_0000_0000_0000 % 4 == 2
}

/// `uuid::Uuid::new_v4`: any UUID of that version may come.
#[verifier::external_body]
pub(crate) fn new_uuid() -> (r: u128)
    ensures
        is_random_uuid(r),
{
    uuid::Uuid::new_v4().as_u128()
}

/// `uuid::Uuid::to_hyphenated`. `uuid::Uuid::parse_str` reads its text back as the same UUID.
#[verifier::external_body]
pub(crate) fn show_uuid(uuid: u128) -> (r: String)
    ensures
        r@ == uuid_text(uuid),
        uuid_parsed(r@) == Some(uuid),
{
    uuid::Uuid::from_u128(uuid).to_hyphenated().to_string()
}

/// `uuid::Uuid::parse_str`.
#[verifier::external_body]
pub(crate) fn parse_uuid(text: &str) -> (r: Option<u128>)
    ensures
        r == uuid_parsed(text@),
{
    uuid::Uuid::parse_str(text).ok().map(|u| u.as_u128())
}

/// `ring::signature::Ed25519KeyPair::from_pkcs8`, then `sign`. A signature has 64 bytes. Whether there
/// is one rests on the key alone.
#[verifier::external_body]
pub(crate) fn sign_ed25519(pkcs8: &[u8], message: &[u8]) -> (r: Option<Vec<u8>>)
    ensures
        match r {
            Some(s) => ed25519_signature(pkcs8@, message@) == Some(s@) && s@.len() == 64,
            None => ed25519_signature(pkcs8@, message@) is None,
        },
        r is Some == ed25519_signature(pkcs8@, Seq::empty()) is Some,
{
    ring::signature::Ed25519KeyPair::from_pkcs8(pkcs8).ok().map(
        |key| key.sign(message).as_ref().to_vec(),
    )
}

/// `rand::random`: any number may come.
#[verifier::external_body]
pub(crate) fn random_u64() -> (r: u64) {
    rand::random::<u64>()
}

/// `chrono::Utc::now`, in milliseconds since the start of 1970.
#[verifier::external_body]
pub(crate) fn now_millis() -> (r: i64) {
    chrono::Utc::now().timestamp_millis()
}

} // verus!
