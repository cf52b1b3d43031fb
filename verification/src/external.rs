//! Calls into code that is not verified here, each with the contract that
//! the rest of the library relies on.
use vstd::prelude::*;

use argon2::{PasswordHasher, PasswordVerifier};
use base64::Engine;
use rand::RngCore;
use sha2::Digest;
use subtle::ConstantTimeEq;

verus! {

/// Whether `s` is the text form of an IPv6 address, as `Ipv6Addr::from_str`
/// accepts it.
pub uninterp spec fn ipv6_text(s: Seq<char>) -> bool;

/// Calls `<core::net::Ipv6Addr as FromStr>::from_str` and reports whether it
/// succeeded; the contract only names that answer, as a function of the text.
#[verifier::external_body]
pub fn parses_as_ipv6(s: &str) -> (r: bool)
    ensures
        r == ipv6_text(s@),
{
    s.parse::<core::net::Ipv6Addr>().is_ok()
}

/// `%Y-%m` of the UTC calendar date at `timestamp` seconds after the epoch
/// (the epoch itself when chrono cannot represent the timestamp).
pub uninterp spec fn utc_month_key(timestamp: i64) -> Seq<char>;

/// `%Y-%m-%d` of the UTC calendar date at `timestamp`, on the same terms.
pub uninterp spec fn utc_day_key(timestamp: i64) -> Seq<char>;

/// Formats `chrono::DateTime::from_timestamp(timestamp, 0)` (the default
/// date when that is `None`) with `%Y-%m`; the contract only names the text,
/// which depends on the timestamp alone.
#[verifier::external_body]
pub fn month_key(timestamp: i64) -> (r: String)
    ensures
        r@ == utc_month_key(timestamp),
{
    chrono::DateTime::from_timestamp(timestamp, 0).unwrap_or_default().format("%Y-%m").to_string()
}

/// As `month_key`, with `%Y-%m-%d`.
#[verifier::external_body]
pub fn day_key(timestamp: i64) -> (r: String)
    ensures
        r@ == utc_day_key(timestamp),
{
    chrono::DateTime::from_timestamp(timestamp, 0).unwrap_or_default().format(
        "%Y-%m-%d",
    ).to_string()
}

// ---------------------------------------------------------------------------
// Digests and encodings
// ---------------------------------------------------------------------------

/// The SHA-256 digest of `data`.
pub uninterp spec fn sha256(data: Seq<u8>) -> Seq<u8>;

/// Calls `sha2::Sha256::digest`; the contract names the digest of the bytes
/// and states its documented length of 32 bytes.
#[verifier::external_body]
pub fn sha256_digest(data: &[u8]) -> (r: Vec<u8>)
    ensures
        r@ == sha256(data@),
        r@.len() == 32,
{
    sha2::Sha256::digest(data).to_vec()
}

/// The characters of the URL-safe base64 alphabet.
pub open spec fn url_safe_char(c: char) -> bool {
    ||| 'A' <= c <= 'Z'
    ||| 'a' <= c <= 'z'
    ||| '0' <= c <= '9'
    ||| c == '-'
    ||| c == '_'
}

/// URL-safe base64 without padding of `bytes`.
pub uninterp spec fn base64url_text(bytes: Seq<u8>) -> Seq<char>;

/// What decoding `text` as URL-safe base64 without padding gives, if it decodes.
pub uninterp spec fn base64url_bytes(text: Seq<char>) -> Option<Seq<u8>>;

/// Calls `URL_SAFE_NO_PAD.encode`; the contract names the text, states that
/// it uses only the URL-safe alphabet, that it has the unpadded length of
/// four characters per three bytes (rounded up), and that the same engine
/// decodes it back to `bytes`.
#[verifier::external_body]
pub fn base64url_encode(bytes: &[u8]) -> (r: String)
    ensures
        r@ == base64url_text(bytes@),
        forall|i: int| 0 <= i < r@.len() ==> url_safe_char(#[trigger] r@[i]),
        r@.len() == (4 * bytes@.len() + 2) / 3,
        base64url_bytes(r@) == Some(bytes@),
{
    base64::engine::general_purpose::URL_SAFE_NO_PAD.encode(bytes)
}

/// Calls `URL_SAFE_NO_PAD.decode`; the contract only names the outcome.
#[verifier::external_body]
pub fn base64url_decode(text: &str) -> (r: Option<Vec<u8>>)
    ensures
        match r {
            Some(v) => base64url_bytes(text@) == Some(v@),
            None => base64url_bytes(text@) is None,
        },
{
    match base64::engine::general_purpose::URL_SAFE_NO_PAD.decode(text) {
        Ok(bytes) => Some(bytes),
        Err(_) => None,
    }
}

/// Calls `subtle::ConstantTimeEq::ct_eq` on two byte slices, which is true
/// exactly when they have the same length and the same bytes.
#[verifier::external_body]
pub fn constant_time_eq(a: &[u8], b: &[u8]) -> (r: bool)
    ensures
        r == (a@ == b@),
{
    bool::from(a.ct_eq(b))
}

/// Calls `rand::rngs::OsRng.try_fill_bytes` on `n` zero bytes, which asks
/// the operating system's random source (`getrandom`) for them. When that
/// source fails the result is `None`; otherwise nothing is stated of the
/// bytes but their number. `n` stays within what a `Vec` can hold.
#[verifier::external_body]
pub fn random_bytes(n: usize) -> (r: Option<Vec<u8>>)
    requires
        n <= isize::MAX,
    ensures
        r matches Some(v) ==> v@.len() == n,
{
    let mut bytes = vec![0u8; n];
    match rand::rngs::OsRng.try_fill_bytes(&mut bytes) {
        Ok(()) => Some(bytes),
        Err(_) => None,
    }
}

// ---------------------------------------------------------------------------
// Argon2
// ---------------------------------------------------------------------------

/// The fields of a PHC string that credential checks read.
#[derive(Debug, Clone, Copy, PartialEq, Eq)]
pub struct PhcFields {
    pub m: Option<u32>,
    pub t: Option<u32>,
    pub p: Option<u32>,
    pub has_hash: bool,
    pub has_salt: bool,
}

/// What `PasswordHash::new` reads from `encoded`, if it parses.
pub uninterp spec fn phc_fields(encoded: Seq<char>) -> Option<PhcFields>;

/// Calls `argon2::PasswordHash::new` and copies out the decimal parameters
/// `m`, `t`, `p` and whether a hash and a salt are present; the contract only
/// names that outcome, as a function of the text.
#[verifier::external_body]
pub fn parse_phc(encoded: &str) -> (r: Option<PhcFields>)
    ensures
        r == phc_fields(encoded@),
{
    match argon2::PasswordHash::new(encoded) {
        Ok(hash) => Some(
            PhcFields {
                m: hash.params.get_decimal("m"),
                t: hash.params.get_decimal("t"),
                p: hash.params.get_decimal("p"),
                has_hash: hash.hash.is_some(),
                has_salt: hash.salt.is_some(),
            },
        ),
        Err(_) => None,
    }
}

/// Whether Argon2 with its default parameters accepts `password` for the PHC string `encoded`.
pub uninterp spec fn argon2_accepts(encoded: Seq<char>, password: Seq<u8>) -> bool;

/// Parses `encoded` with `argon2::PasswordHash::new` and calls
/// `Argon2::default().verify_password`; the contract only names the answer.
#[verifier::external_body]
pub fn argon2_verify(encoded: &str, password: &[u8]) -> (r: bool)
    ensures
        r == argon2_accepts(encoded@, password@),
{
    match argon2::PasswordHash::new(encoded) {
        Ok(hash) => argon2::Argon2::default().verify_password(password, &hash).is_ok(),
        Err(_) => false,
    }
}

/// The B64 text (the PHC alphabet, no padding) of the salt bytes `bytes`.
pub uninterp spec fn b64_salt_text(bytes: Seq<u8>) -> Seq<char>;

/// Calls `SaltString::encode_b64`, which writes the B64 text of `bytes` into
/// a salt of at most 64 characters; the contract names that text and states
/// that it fits exactly when there are at most 48 bytes.
#[verifier::external_body]
pub fn salt_b64(bytes: &[u8]) -> (r: Option<String>)
    ensures
        r is Some <==> bytes@.len() <= 48,
        r matches Some(s) ==> s@ == b64_salt_text(bytes@),
{
    match argon2::password_hash::SaltString::encode_b64(bytes) {
        Ok(salt) => Some(salt.as_str().to_owned()),
        Err(_) => None,
    }
}

/// The prefix of the PHC strings that `Argon2::default()` produces.
pub open spec fn default_argon2id_prefix() -> Seq<char> {
    "$argon2id$v=19$m=19456,t=2,p=1$"@
}

/// The PHC fields of a hash made by `Argon2::default()`: Argon2id's default
/// parameters of 19 MiB, two passes and one lane, with a salt and a hash.
pub open spec fn default_argon2id_fields() -> PhcFields {
    PhcFields {
        m: Some(19456u32),
        t: Some(2u32),
        p: Some(1u32),
        has_hash: true,
        has_salt: true,
    }
}

/// Reads `salt` with `Salt::from_b64`, calls `Argon2::default().hash_password`
/// and renders the PHC string. The contract states what the argon2 and
/// password-hash sources show. The string starts with
/// `$argon2id$v=19$m=19456,t=2,p=1$` (algorithm, version 0x13 and
/// `Params::DEFAULT` as `Display` writes them), carries a salt and a hash,
/// and `verify_password` accepts the same password for it. Hashing succeeds
/// whenever the salt is the B64 text of 8 to 48 bytes (the salt check, the
/// decoding and `MIN_SALT_LEN` then pass) and the password has at most
/// `MAX_PWD_LEN` (`u32::MAX`) bytes: those are the only failures of
/// `hash_password` with default parameters. Nothing else is stated of the
/// text.
#[verifier::external_body]
pub fn argon2_hash(password: &[u8], salt: &str) -> (r: Option<String>)
    ensures
        (exists|bytes: Seq<u8>| 8 <= bytes.len() <= 48 && salt@ == b64_salt_text(bytes))
            && password@.len() <= u32::MAX ==> r is Some,
        r matches Some(s) ==> {
            &&& crate::text::has_prefix(s@, default_argon2id_prefix())
            &&& crate::auth::is_argon2id(s@)
            &&& phc_fields(s@) == Some(default_argon2id_fields())
            &&& argon2_accepts(s@, password@)
        },
{
    let salt = match argon2::password_hash::Salt::from_b64(salt) {
        Ok(salt) => salt,
        Err(_) => return None,
    };
    match argon2::Argon2::default().hash_password(password, salt) {
        Ok(hash) => Some(hash.to_string()),
        Err(_) => None,
    }
}

// ---------------------------------------------------------------------------
// Strings
// ---------------------------------------------------------------------------

/// Calls `String::push`, which appends `c`.
#[verifier::external_body]
pub(crate) fn push_char(s: &mut String, c: char)
    ensures
        final(s)@ == old(s)@.push(c),
{
    s.push(c);
}

// ---------------------------------------------------------------------------
// Durations
// ---------------------------------------------------------------------------

/// `Duration` is `Copy` and derives `Clone`, so a clone is the same value.
pub assume_specification[ <std::time::Duration as Clone>::clone ](d: &std::time::Duration) -> (r:
    std::time::Duration)
    ensures
        r == *d,
;

} // verus!
