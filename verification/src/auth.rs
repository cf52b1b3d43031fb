//! The administrator credential: password rules, stored credential formats
//! (Argon2id PHC strings and legacy SHA-256 digests), verification, the
//! administrator's sessions and the administrator-wide attempt budget.
use vstd::prelude::*;

use crate::external::{
    argon2_accepts, argon2_hash, argon2_verify, b64_salt_text, base64url_bytes, base64url_decode,
    constant_time_eq, default_argon2id_prefix, parse_phc, phc_fields,
    random_bytes, salt_b64, sha256, sha256_digest, PhcFields,
};
use crate::text::{chars_of, has_prefix, matches_at, same_text, utf8};

verus! {

/// Errors of the credential functions.
#[derive(Debug, Clone, Copy, PartialEq, Eq)]
pub enum AuthError {
    /// The stored administrator credential is not in a known format.
    CorruptCredential,
    /// Argon2 could not produce a hash.
    HashFailed,
}

/// The UTF-8 length of `s` in bytes.
pub open spec fn byte_len(s: &str) -> int {
    utf8(s@).len() as int
}

/// A password has 15 to 128 characters and at most 512 bytes.
pub open spec fn password_ok(value: &str) -> bool {
    15 <= value@.len() <= 128 && byte_len(value) <= 512
}

pub fn valid_password(value: &str) -> (r: bool)
    ensures
        r == password_ok(value),
{
    let count = chars_of(value).len();
    15 <= count && count <= 128 && value.as_bytes().len() <= 512
}

/// The prefix of PHC strings of Argon2id.
pub open spec fn argon2id_prefix() -> Seq<char> {
    seq!['$', 'a', 'r', 'g', 'o', 'n', '2', 'i', 'd', '$']
}

fn argon2id_prefix_chars() -> (r: Vec<char>)
    ensures
        r@ == argon2id_prefix(),
{
    let mut r: Vec<char> = Vec::new();
    r.push('$');
    r.push('a');
    r.push('r');
    r.push('g');
    r.push('o');
    r.push('n');
    r.push('2');
    r.push('i');
    r.push('d');
    r.push('$');
    r
}

pub open spec fn is_argon2id(encoded: Seq<char>) -> bool {
    has_prefix(encoded, argon2id_prefix())
}

fn starts_argon2id(encoded: &str) -> (r: bool)
    ensures
        r == is_argon2id(encoded@),
{
    let v = chars_of(encoded);
    let p = argon2id_prefix_chars();
    let r = matches_at(&v, &p, 0);
    proof {
        if p@.len() <= v@.len() {
            assert(v@.subrange(0, p@.len() as int) =~= v@.take(p@.len() as int));
        }
    }
    r
}

/// Whether `encoded` is an acceptable stored credential, given the PHC
/// fields parsed from it (`fields`) and the bytes it decodes to as URL-safe
/// base64 (`decoded`): an Argon2id PHC string needs the default parameters
/// (19 MiB, two passes, one lane), a salt and a hash; anything else must
/// decode to a 32-byte SHA-256 digest.
pub open spec fn credential_fields_ok(
    encoded: Seq<char>,
    fields: Option<PhcFields>,
    decoded: Option<Seq<u8>>,
) -> bool {
    if is_argon2id(encoded) {
        match fields {
            Some(f) => f.m == Some(19456u32) && f.t == Some(2u32) && f.p == Some(1u32) && f.has_hash
                && f.has_salt,
            None => false,
        }
    } else {
        match decoded {
            Some(d) => d.len() == 32,
            None => false,
        }
    }
}

/// A stored credential is either an Argon2id PHC string with the default
/// parameters (19 MiB, two passes, one lane), a salt and a hash, or the
/// URL-safe base64 of a 32-byte SHA-256 digest.
pub open spec fn credential_ok(encoded: Seq<char>) -> bool {
    credential_fields_ok(encoded, phc_fields(encoded), base64url_bytes(encoded))
}

/// Decides `credential_fields_ok` on the parsed PHC fields and the decoded
/// bytes of `encoded`; only the one that the format of `encoded` calls for
/// is read.
pub fn credential_fields_accepted(
    encoded: &str,
    fields: Option<PhcFields>,
    decoded: Option<&[u8]>,
) -> (r: bool)
    ensures
        r == credential_fields_ok(
            encoded@,
            fields,
            match decoded {
                Some(d) => Some(d@),
                None => None,
            },
        ),
{
    if starts_argon2id(encoded) {
        match fields {
            Some(f) => f.m == Some(19456u32) && f.t == Some(2u32) && f.p == Some(1u32) && f.has_hash
                && f.has_salt,
            None => false,
        }
    } else {
        match decoded {
            Some(d) => d.len() == 32,
            None => false,
        }
    }
}

pub fn valid_credential(encoded: &str) -> (r: bool)
    ensures
        r == credential_ok(encoded@),
{
    if starts_argon2id(encoded) {
        credential_fields_accepted(encoded, parse_phc(encoded), None)
    } else {
        match base64url_decode(encoded) {
            Some(d) => credential_fields_accepted(encoded, None, Some(d.as_slice())),
            None => credential_fields_accepted(encoded, None, None),
        }
    }
}

/// Whether `provided` is the password of the stored credential `encoded`.
pub open spec fn password_matches(encoded: Seq<char>, provided: Seq<char>) -> bool {
    if utf8(provided).len() > 512 || !credential_ok(encoded) {
        false
    } else if is_argon2id(encoded) {
        argon2_accepts(encoded, utf8(provided))
    } else {
        base64url_bytes(encoded) == Some(sha256(utf8(provided)))
    }
}

pub fn verify_password(encoded: &str, provided: &str) -> (r: bool)
    ensures
        r == password_matches(encoded@, provided@),
{
    if provided.as_bytes().len() > 512 || !valid_credential(encoded) {
        return false;
    }
    if starts_argon2id(encoded) {
        argon2_verify(encoded, provided.as_bytes())
    } else {
        let expected = match base64url_decode(encoded) {
            Some(d) => d,
            None => Vec::new(),
        };
        let actual = sha256_digest(provided.as_bytes());
        constant_time_eq(expected.as_slice(), actual.as_slice())
    }
}

/// The Argon2id credential for `value` with the salt bytes `salt`: a PHC
/// string with version 19 and the default parameters (19 MiB, two passes,
/// one lane), which the password verifies against. It is made whenever the
/// salt has 8 to 48 bytes and the password at most `u32::MAX` bytes.
pub fn hash_password_with_salt(value: &str, salt: &[u8]) -> (r: Result<String, AuthError>)
    ensures
        8 <= salt@.len() <= 48 && utf8(value@).len() <= u32::MAX ==> r is Ok,
        r is Err ==> r == Err::<String, AuthError>(AuthError::HashFailed),
        r matches Ok(s) ==> has_prefix(s@, default_argon2id_prefix()) && credential_ok(s@),
        r matches Ok(s) ==> (byte_len(value) <= 512 ==> password_matches(s@, value@)),
{
    let text = match salt_b64(salt) {
        Some(t) => t,
        None => return Err(AuthError::HashFailed),
    };
    proof {
        if 8 <= salt@.len() <= 48 {
            assert(8 <= salt@.len() <= 48 && text@ == b64_salt_text(salt@));
        }
    }
    match argon2_hash(value.as_bytes(), text.as_str()) {
        Some(encoded) => Ok(encoded),
        None => Err(AuthError::HashFailed),
    }
}

/// A new Argon2id credential for `value`, salted with 16 fresh random bytes
/// (see `hash_password_with_salt`). It fails, with `HashFailed`, when the
/// operating system gives no random bytes.
pub fn hash_password(value: &str) -> (r: Result<String, AuthError>)
    ensures
        r is Err ==> r == Err::<String, AuthError>(AuthError::HashFailed),
        r matches Ok(s) ==> has_prefix(s@, default_argon2id_prefix()) && credential_ok(s@),
        r matches Ok(s) ==> (byte_len(value) <= 512 ==> password_matches(s@, value@)),
{
    match random_bytes(16) {
        Some(bytes) => hash_password_with_salt(value, bytes.as_slice()),
        None => Err(AuthError::HashFailed),
    }
}

/// The budget of password attempts shared by login and password change.
pub const MAX_ATTEMPTS: u8 = 5;

/// Length of one attempt window in nanoseconds (60 seconds).
pub const ATTEMPT_WINDOW_NANOS: u128 = 60_000_000_000;

/// Sessions never number more than this.
pub const MAX_SESSIONS: usize = 128;

/// Bearer tokens longer than this many bytes are never looked up.
pub const MAX_SESSION_TOKEN_BYTES: usize = 128;

/// A session lasts twelve hours.
pub const SESSION_LIFETIME_SECS: u64 = 43_200;

/// Twelve hours in nanoseconds.
pub const SESSION_LIFETIME_NANOS: u128 = 43_200_000_000_000;

/// Nanoseconds from `start` to `now` on a monotonic clock; nothing when
/// `now` is not later.
pub open spec fn elapsed_since(start: u128, now: u128) -> u128 {
    if now >= start {
        (now - start) as u128
    } else {
        0
    }
}

/// An administrator session: its bearer token and when it expires, in
/// nanoseconds on the monotonic clock.
#[derive(Debug)]
pub struct Session {
    pub token: String,
    pub expiry: u128,
}

/// Some session has the bearer token `token`.
pub open spec fn has_token(sessions: Seq<Session>, token: Seq<char>) -> bool {
    exists|i: int| 0 <= i < sessions.len() && sessions[i].token@ == token
}

/// Some session with the bearer token `token` expires after `now`.
pub open spec fn session_live(sessions: Seq<Session>, token: Seq<char>, now: u128) -> bool {
    exists|i: int|
        0 <= i < sessions.len() && sessions[i].token@ == token && sessions[i].expiry > now
}

/// `token` fits `MAX_SESSION_TOKEN_BYTES` and names a session that expires
/// after `now`.
pub open spec fn session_ok(sessions: Seq<Session>, token: Seq<char>, now: u128) -> bool {
    utf8(token).len() <= MAX_SESSION_TOKEN_BYTES && session_live(sessions, token, now)
}

/// No two sessions share a bearer token.
pub open spec fn tokens_unique(sessions: Seq<Session>) -> bool {
    forall|i: int, j: int|
        0 <= i < j < sessions.len() ==> sessions[i].token@ != sessions[j].token@
}

/// Every session of `later` was already in `earlier`.
pub open spec fn kept_from(later: Seq<Session>, earlier: Seq<Session>) -> bool {
    forall|i: int| 0 <= i < later.len() ==> earlier.contains(#[trigger] later[i])
}

/// For each session, whether it expires after `now`.
pub open spec fn unexpired(sessions: Seq<Session>, now: u128) -> Seq<bool> {
    Seq::new(sessions.len(), |i: int| sessions[i].expiry > now)
}

/// The sessions that expire after `now`, in order.
pub open spec fn pruned(sessions: Seq<Session>, now: u128) -> Seq<Session> {
    kept_sessions(sessions, unexpired(sessions, now))
}

/// The position of the session with bearer token `token`.
pub open spec fn token_position(sessions: Seq<Session>, token: Seq<char>) -> int {
    choose|i: int| 0 <= i < sessions.len() && sessions[i].token@ == token
}

/// `sessions` with a session of `token` that expires at `expiry`: it takes
/// the place of the session with that token, or comes last.
pub open spec fn with_session(sessions: Seq<Session>, token: String, expiry: u128) -> Seq<Session> {
    if has_token(sessions, token@) {
        sessions.update(token_position(sessions, token@), Session { token, expiry })
    } else {
        sessions.push(Session { token, expiry })
    }
}

/// Taking a session out keeps the others, in order, with distinct tokens.
proof fn lemma_remove_session(before: Seq<Session>, i: int, earlier: Seq<Session>)
    requires
        0 <= i < before.len(),
        kept_from(before, earlier),
        tokens_unique(before),
    ensures
        kept_from(before.remove(i), earlier),
        tokens_unique(before.remove(i)),
        forall|k: int|
            0 <= k < before.remove(i).len() ==> #[trigger] before.remove(i)[k] == before[if k
                < i {
                k
            } else {
                k + 1
            }],
{
    let after = before.remove(i);
    assert forall|k: int| 0 <= k < after.len() implies #[trigger] after[k] == before[if k < i {
        k
    } else {
        k + 1
    }] by {}
    assert forall|k: int| 0 <= k < after.len() implies earlier.contains(#[trigger] after[k]) by {
        let m = if k < i {
            k
        } else {
            k + 1
        };
        assert(after[k] == before[m]);
        assert(earlier.contains(before[m]));
    }
    assert forall|a: int, b: int| 0 <= a < b < after.len() implies after[a].token@
        != after[b].token@ by {
        assert(after[a] == before[if a < i {
            a
        } else {
            a + 1
        }]);
        assert(after[b] == before[if b < i {
            b
        } else {
            b + 1
        }]);
    }
}

/// Taking out the session of `token` leaves no session of it and every other token.
proof fn lemma_remove_token(before: Seq<Session>, i: int, token: Seq<char>)
    requires
        0 <= i < before.len(),
        before[i].token@ == token,
        tokens_unique(before),
    ensures
        !has_token(before.remove(i), token),
        forall|k: Seq<char>|
            k != token ==> (has_token(before.remove(i), k) <==> has_token(before, k)),
{
    let after = before.remove(i);
    assert forall|w: int| 0 <= w < after.len() implies after[w].token@ != token by {
        let m = if w < i {
            w
        } else {
            w + 1
        };
        assert(after[w] == before[m]);
    }
    assert forall|k: Seq<char>| k != token implies (has_token(after, k) <==> has_token(
        before,
        k,
    )) by {
        if has_token(before, k) {
            let w = choose|w: int| 0 <= w < before.len() && before[w].token@ == k;
            let v = if w < i {
                w
            } else {
                w - 1
            };
            assert(after[v] == before[w]);
        }
        if has_token(after, k) {
            let w = choose|w: int| 0 <= w < after.len() && after[w].token@ == k;
            let m = if w < i {
                w
            } else {
                w + 1
            };
            assert(after[w] == before[m]);
        }
    }
}

/// Every list is kept from itself.
proof fn lemma_kept_from_self(s: Seq<Session>)
    ensures
        kept_from(s, s),
{
    assert forall|k: int| 0 <= k < s.len() implies s.contains(#[trigger] s[k]) by {}
}

/// Position of the session with bearer token `token`.
fn find_session(sessions: &Vec<Session>, token: &str) -> (r: Option<usize>)
    ensures
        match r {
            Some(i) => i < sessions@.len() && sessions@[i as int].token@ == token@,
            None => !has_token(sessions@, token@),
        },
{
    let mut i: usize = 0;
    while i < sessions.len()
        invariant
            i <= sessions@.len(),
            forall|j: int| 0 <= j < i ==> sessions@[j].token@ != token@,
        decreases sessions@.len() - i,
    {
        if same_text(sessions[i].token.as_str(), token) {
            return Some(i);
        }
        i = i + 1;
    }
    None
}

/// The sessions whose verdict in `live` (at the same position) is true, in order.
pub open spec fn kept_sessions(sessions: Seq<Session>, live: Seq<bool>) -> Seq<Session>
    decreases sessions.len(),
{
    if sessions.len() == 0 || live.len() == 0 {
        seq![]
    } else {
        let rest = kept_sessions(sessions.drop_last(), live.drop_last());
        if live.last() {
            rest.push(sessions.last())
        } else {
            rest
        }
    }
}

/// A selection of sessions keeps some of them, in order, with distinct tokens.
proof fn lemma_kept_sessions(s: Seq<Session>, l: Seq<bool>)
    requires
        s.len() == l.len(),
    ensures
        kept_sessions(s, l).len() <= s.len(),
        kept_from(kept_sessions(s, l), s),
        tokens_unique(s) ==> tokens_unique(kept_sessions(s, l)),
    decreases s.len(),
{
    if s.len() > 0 {
        let d = s.drop_last();
        let r = kept_sessions(d, l.drop_last());
        lemma_kept_sessions(d, l.drop_last());
        assert forall|k: int| 0 <= k < r.len() implies s.contains(#[trigger] r[k]) by {
            assert(d.contains(r[k]));
            let j = choose|j: int| 0 <= j < d.len() && d[j] == r[k];
            assert(s[j] == d[j]);
        }
        if l.last() {
            let n = s.len() - 1;
            let out = r.push(s.last());
            assert forall|k: int| 0 <= k < out.len() implies s.contains(#[trigger] out[k]) by {
                if k < r.len() {
                    assert(out[k] == r[k]);
                    assert(s.contains(r[k]));
                } else {
                    assert(out[k] == s[n]);
                }
            }
            if tokens_unique(s) {
                assert forall|a: int, b: int| 0 <= a < b < out.len() implies out[a].token@
                    != out[b].token@ by {
                    assert(out[a] == r[a]);
                    if b < r.len() {
                        assert(out[b] == r[b]);
                    } else {
                        assert(out[b] == s[n]);
                        assert(d.contains(r[a]));
                        let j = choose|j: int| 0 <= j < d.len() && d[j] == r[a];
                        assert(s[j] == d[j]);
                    }
                }
            }
        }
    }
}

/// Keeps, in order, the sessions whose verdict in `live` is true.
fn retain_live(sessions: &mut Vec<Session>, live: &Vec<bool>)
    requires
        old(sessions)@.len() == live@.len(),
    ensures
        final(sessions)@ == kept_sessions(old(sessions)@, live@),
{
    let ghost all = sessions@;
    let mut i: usize = 0;
    let mut j: usize = 0;
    proof {
        assert(all.take(0) =~= Seq::<Session>::empty());
        assert(live@.take(0) =~= Seq::<bool>::empty());
        assert(sessions@ =~= kept_sessions(all.take(0), live@.take(0)) + all.skip(0));
    }
    while i < live.len()
        invariant
            i <= live@.len() == all.len(),
            all == old(sessions)@,
            j == kept_sessions(all.take(i as int), live@.take(i as int)).len(),
            sessions@ == kept_sessions(all.take(i as int), live@.take(i as int)) + all.skip(
                i as int,
            ),
        decreases live@.len() - i,
    {
        let ghost k = kept_sessions(all.take(i as int), live@.take(i as int));
        proof {
            assert(all.take(i + 1).drop_last() =~= all.take(i as int));
            assert(live@.take(i + 1).drop_last() =~= live@.take(i as int));
            assert(all.take(i + 1).last() == all[i as int]);
            assert(live@.take(i + 1).last() == live@[i as int]);
            assert(j < sessions@.len());
            assert(sessions@[j as int] == all[i as int]);
            lemma_kept_sessions(all.take(i as int), live@.take(i as int));
            assert(j <= i);
        }
        if live[i] {
            proof {
                assert(kept_sessions(all.take(i + 1), live@.take(i + 1)) == k.push(all[i as int]));
                assert(sessions@ =~= k.push(all[i as int]) + all.skip(i + 1));
            }
            j = j + 1;
        } else {
            let _ = sessions.remove(j);
            proof {
                assert(kept_sessions(all.take(i + 1), live@.take(i + 1)) == k);
                assert(sessions@ =~= k + all.skip(i + 1));
            }
        }
        i = i + 1;
    }
    proof {
        assert(all.take(i as int) =~= all);
        assert(live@.take(i as int) =~= live@);
        assert(sessions@ =~= kept_sessions(all, live@));
    }
}

/// Drops the sessions that have expired at `now` (expiry not later than
/// `now`); the rest keep their order.
fn prune_sessions(sessions: &mut Vec<Session>, now: u128)
    requires
        tokens_unique(old(sessions)@),
    ensures
        final(sessions)@ == pruned(old(sessions)@, now),
        tokens_unique(final(sessions)@),
        final(sessions)@.len() <= old(sessions)@.len(),
        kept_from(final(sessions)@, old(sessions)@),
{
    let mut live: Vec<bool> = Vec::new();
    let mut i: usize = 0;
    while i < sessions.len()
        invariant
            i <= sessions@.len(),
            sessions@ == old(sessions)@,
            live@ == unexpired(old(sessions)@, now).take(i as int),
        decreases sessions@.len() - i,
    {
        live.push(sessions[i].expiry > now);
        proof {
            assert(live@ =~= unexpired(old(sessions)@, now).take(i + 1));
        }
        i = i + 1;
    }
    proof {
        assert(live@ =~= unexpired(old(sessions)@, now));
    }
    retain_live(sessions, &live);
    proof {
        lemma_kept_sessions(old(sessions)@, live@);
    }
}

/// The administrator credential, its sessions, and the attempt budget.
pub struct AdminAuth {
    credential: String,
    sessions: Vec<Session>,
    attempts: u8,
    window: u128,
}

impl AdminAuth {
    /// Sessions hold distinct tokens and number at most `MAX_SESSIONS`; at
    /// most `MAX_ATTEMPTS` attempts are counted in a window.
    #[verifier::type_invariant]
    spec fn well_formed(self) -> bool {
        &&& tokens_unique(self.sessions@)
        &&& self.sessions@.len() <= MAX_SESSIONS
        &&& self.attempts <= MAX_ATTEMPTS
    }

    pub closed spec fn credential_text(&self) -> Seq<char> {
        self.credential@
    }

    pub closed spec fn session_list(&self) -> Seq<Session> {
        self.sessions@
    }

    pub closed spec fn attempts_used(&self) -> u8 {
        self.attempts
    }

    pub closed spec fn window_start(&self) -> u128 {
        self.window
    }

    /// Starts at `now` with no sessions and a fresh attempt window; a
    /// credential in an unknown format is refused.
    pub fn new(credential: String, now: u128) -> (r: Result<Self, AuthError>)
        ensures
            credential_ok(credential@) <==> r is Ok,
            r matches Ok(a) ==> a.credential_text() == credential@ && a.session_list().len() == 0
                && a.attempts_used() == 0 && a.window_start() == now,
            r matches Err(e) ==> e == AuthError::CorruptCredential,
    {
        if !valid_credential(credential.as_str()) {
            return Err(AuthError::CorruptCredential);
        }
        Ok(AdminAuth { credential, sessions: Vec::new(), attempts: 0, window: now })
    }

    /// The stored credential.
    pub fn credential(&self) -> (r: &str)
        ensures
            r@ == self.credential_text(),
    {
        self.credential.as_str()
    }

    /// The start of the current attempt window.
    pub fn window(&self) -> (r: u128)
        ensures
            r == self.window_start(),
    {
        self.window
    }

    /// Counts an attempt made `elapsed` nanoseconds after the window started:
    /// a window of 60 seconds or more restarts at `now`; within a window at
    /// most five attempts are allowed.
    pub fn register_attempt(&mut self, elapsed: u128, now: u128) -> (allowed: bool)
        ensures
            final(self).credential_text() == old(self).credential_text(),
            final(self).session_list() == old(self).session_list(),
            (final(self).attempts_used() as nat, allowed) == attempt_step(
                attempts_before(old(self).attempts_used(), elapsed),
            ),
            final(self).window_start() == if window_restarts(elapsed) {
                now
            } else {
                old(self).window_start()
            },
    {
        proof {
            use_type_invariant(&*self);
        }
        if elapsed >= ATTEMPT_WINDOW_NANOS {
            self.window = now;
            self.attempts = 0;
        }
        if self.attempts >= MAX_ATTEMPTS {
            return false;
        }
        self.attempts = self.attempts + 1;
        true
    }

    /// Counts an attempt at `now` against the administrator-wide budget of
    /// five attempts per 60-second window, whatever address it comes from:
    /// the window restarts at `now` once 60 seconds have passed since it
    /// started; the attempt is allowed while the window has budget left.
    pub fn allow_attempt(&mut self, now: u128) -> (allowed: bool)
        ensures
            final(self).credential_text() == old(self).credential_text(),
            final(self).session_list() == old(self).session_list(),
            (final(self).attempts_used(), final(self).window_start(), allowed) == attempt_update(
                old(self).attempts_used(),
                old(self).window_start(),
                now,
            ),
    {
        let elapsed = if now >= self.window {
            now - self.window
        } else {
            0
        };
        self.register_attempt(elapsed, now)
    }

    /// Opens a session with bearer token `token` that lasts until `expiry`,
    /// after dropping the sessions expired at `now`. It is refused while
    /// `MAX_SESSIONS` sessions are left open; an open session with the same
    /// token takes the new expiry.
    pub fn open_session(&mut self, token: String, expiry: u128, now: u128) -> (opened: bool)
        ensures
            final(self).credential_text() == old(self).credential_text(),
            final(self).attempts_used() == old(self).attempts_used(),
            final(self).window_start() == old(self).window_start(),
            opened == (pruned(old(self).session_list(), now).len() < MAX_SESSIONS),
            !opened ==> final(self).session_list() == pruned(old(self).session_list(), now),
            opened ==> final(self).session_list() == with_session(
                pruned(old(self).session_list(), now),
                token,
                expiry,
            ),
    {
        proof {
            use_type_invariant(&*self);
        }
        let mut sessions: Vec<Session> = Vec::new();
        std::mem::swap(&mut sessions, &mut self.sessions);
        prune_sessions(&mut sessions, now);
        if sessions.len() >= MAX_SESSIONS {
            self.sessions = sessions;
            return false;
        }
        let ghost before = sessions@;
        let ghost entry = Session { token, expiry };
        match find_session(&sessions, token.as_str()) {
            Some(i) => {
                proof {
                    let c = token_position(before, token@);
                    assert(has_token(before, token@));
                    if c != i as int {
                        if c < i {
                            assert(before[c].token@ != before[i as int].token@);
                        } else {
                            assert(before[i as int].token@ != before[c].token@);
                        }
                    }
                }
                sessions.set(i, Session { token, expiry });
                proof {
                    assert(sessions@ == before.update(i as int, entry));
                    assert forall|a: int, b: int| 0 <= a < b < sessions@.len() implies sessions@[a].token@
                        != sessions@[b].token@ by {
                        if a != i as int {
                            assert(sessions@[a] == before[a]);
                        }
                        if b != i as int {
                            assert(sessions@[b] == before[b]);
                        }
                    }
                }
            },
            None => {
                sessions.push(Session { token, expiry });
                proof {
                    let n = before.len() as int;
                    assert(sessions@ == before.push(entry));
                    assert forall|a: int, b: int| 0 <= a < b < sessions@.len() implies sessions@[a].token@
                        != sessions@[b].token@ by {
                        assert(sessions@[a] == before[a]);
                        if b < n {
                            assert(sessions@[b] == before[b]);
                        }
                    }
                }
            },
        }
        self.sessions = sessions;
        true
    }

    /// When the session with bearer token `token` expires; nothing for a
    /// token without a session or longer than `MAX_SESSION_TOKEN_BYTES`.
    pub fn session_expiry(&self, token: &str) -> (r: Option<u128>)
        ensures
            utf8(token@).len() > MAX_SESSION_TOKEN_BYTES ==> r is None,
            utf8(token@).len() <= MAX_SESSION_TOKEN_BYTES ==> (r is Some <==> has_token(
                self.session_list(),
                token@,
            )),
            r matches Some(e) ==> exists|i: int|
                0 <= i < self.session_list().len() && self.session_list()[i].token@ == token@
                    && self.session_list()[i].expiry == e,
    {
        if token.as_bytes().len() > MAX_SESSION_TOKEN_BYTES {
            return None;
        }
        match find_session(&self.sessions, token) {
            Some(i) => {
                let expiry = self.sessions[i].expiry;
                assert(self.session_list()[i as int].token@ == token@
                    && self.session_list()[i as int].expiry == expiry);
                Some(expiry)
            },
            None => None,
        }
    }

    /// Whether `token` names a session that expires after `now`; tokens
    /// longer than `MAX_SESSION_TOKEN_BYTES` never do.
    pub fn session_valid(&self, token: &str, now: u128) -> (r: bool)
        ensures
            r == session_ok(self.session_list(), token@, now),
    {
        proof {
            use_type_invariant(self);
        }
        match self.session_expiry(token) {
            Some(expiry) => {
                proof {
                    let i = choose|i: int|
                        0 <= i < self.session_list().len() && self.session_list()[i].token@
                            == token@ && self.session_list()[i].expiry == expiry;
                    if session_live(self.session_list(), token@, now) {
                        let j = choose|j: int|
                            0 <= j < self.session_list().len() && self.session_list()[j].token@
                                == token@ && self.session_list()[j].expiry > now;
                        if i < j {
                            assert(self.sessions@[i].token@ != self.sessions@[j].token@);
                        }
                        if j < i {
                            assert(self.sessions@[j].token@ != self.sessions@[i].token@);
                        }
                    }
                }
                expiry > now
            },
            None => false,
        }
    }

    /// Drops the sessions expired at `now`, then tells whether `token`
    /// names a session that expires after `now`; a token longer than
    /// `MAX_SESSION_TOKEN_BYTES` is refused before anything is dropped.
    pub fn session_active(&mut self, token: &str, now: u128) -> (r: bool)
        ensures
            final(self).credential_text() == old(self).credential_text(),
            final(self).attempts_used() == old(self).attempts_used(),
            final(self).window_start() == old(self).window_start(),
            utf8(token@).len() > MAX_SESSION_TOKEN_BYTES ==> !r && final(self).session_list()
                == old(self).session_list(),
            utf8(token@).len() <= MAX_SESSION_TOKEN_BYTES ==> final(self).session_list()
                == pruned(old(self).session_list(), now),
            r == session_ok(final(self).session_list(), token@, now),
    {
        if token.as_bytes().len() > MAX_SESSION_TOKEN_BYTES {
            return false;
        }
        proof {
            use_type_invariant(&*self);
        }
        let mut sessions: Vec<Session> = Vec::new();
        std::mem::swap(&mut sessions, &mut self.sessions);
        prune_sessions(&mut sessions, now);
        self.sessions = sessions;
        self.session_valid(token, now)
    }

    /// Ends the session with bearer token `token`, if there is one.
    pub fn end_session(&mut self, token: &str)
        ensures
            final(self).credential_text() == old(self).credential_text(),
            final(self).attempts_used() == old(self).attempts_used(),
            final(self).window_start() == old(self).window_start(),
            !has_token(final(self).session_list(), token@),
            forall|k: Seq<char>|
                k != token@ ==> (has_token(final(self).session_list(), k) <==> has_token(
                    old(self).session_list(),
                    k,
                )),
            kept_from(final(self).session_list(), old(self).session_list()),
    {
        proof {
            use_type_invariant(&*self);
        }
        let mut sessions: Vec<Session> = Vec::new();
        std::mem::swap(&mut sessions, &mut self.sessions);
        let ghost before = sessions@;
        proof {
            lemma_kept_from_self(before);
        }
        match find_session(&sessions, token) {
            Some(i) => {
                let _ = sessions.remove(i);
                proof {
                    lemma_remove_session(before, i as int, before);
                    lemma_remove_token(before, i as int, token@);
                }
            },
            None => {},
        }
        self.sessions = sessions;
    }

    /// Replaces the credential; every session ends with it.
    pub fn change_credential(&mut self, credential: String)
        ensures
            final(self).credential_text() == credential@,
            final(self).session_list().len() == 0,
            final(self).attempts_used() == old(self).attempts_used(),
            final(self).window_start() == old(self).window_start(),
    {
        proof {
            use_type_invariant(&*self);
        }
        self.sessions = Vec::new();
        self.credential = credential;
    }

    /// The number of open sessions, expired ones included until they are
    /// dropped; never more than `MAX_SESSIONS`.
    pub fn session_count(&self) -> (r: usize)
        ensures
            r == self.session_list().len(),
            r <= MAX_SESSIONS,
    {
        proof {
            use_type_invariant(self);
        }
        self.sessions.len()
    }

    /// A login at `now` with `password`, opening a session with bearer token
    /// `token` for `SESSION_LIFETIME_SECS` if it succeeds. A password of more
    /// than 512 bytes is refused before anything is counted; otherwise the
    /// attempt is counted, and a throttled attempt is not checked.
    pub fn login(&mut self, password: &str, token: String, now: u128) -> (r: LoginOutcome)
        requires
            now <= u128::MAX - SESSION_LIFETIME_NANOS,
        ensures
            final(self).credential_text() == old(self).credential_text(),
            utf8(password@).len() > 512 ==> r == LoginOutcome::Refused && final(self).session_list()
                == old(self).session_list() && final(self).attempts_used() == old(
                self,
            ).attempts_used() && final(self).window_start() == old(self).window_start(),
            utf8(password@).len() <= 512 ==> ({
                let (used, window, allowed) = attempt_update(
                    old(self).attempts_used(),
                    old(self).window_start(),
                    now,
                );
                let p = pruned(old(self).session_list(), now);
                &&& final(self).attempts_used() == used
                &&& final(self).window_start() == window
                &&& !allowed ==> r == LoginOutcome::Throttled && final(self).session_list() == old(
                    self,
                ).session_list()
                &&& allowed && !password_matches(old(self).credential_text(), password@) ==> r
                    == LoginOutcome::WrongPassword && final(self).session_list() == old(
                    self,
                ).session_list()
                &&& allowed && password_matches(old(self).credential_text(), password@) ==> if p.len()
                    < MAX_SESSIONS {
                    r == LoginOutcome::Opened && final(self).session_list() == with_session(
                        p,
                        token,
                        (now + SESSION_LIFETIME_NANOS) as u128,
                    )
                } else {
                    r == LoginOutcome::TooManySessions && final(self).session_list() == p
                }
            }),
    {
        if password.as_bytes().len() > 512 {
            return LoginOutcome::Refused;
        }
        if !self.allow_attempt(now) {
            return LoginOutcome::Throttled;
        }
        if !verify_password(self.credential.as_str(), password) {
            return LoginOutcome::WrongPassword;
        }
        if self.open_session(token, now + SESSION_LIFETIME_NANOS, now) {
            LoginOutcome::Opened
        } else {
            LoginOutcome::TooManySessions
        }
    }

    /// The first part of a password change with bearer token `token` at
    /// `now`: the session must be valid, the attempt is then counted, the
    /// new password must follow the rules, and the current password must
    /// verify; then the new credential is made, unless no random salt can be
    /// had. Nothing else changes until the caller has stored it and hands it
    /// to `change_credential`.
    pub fn start_password_change(
        &mut self,
        token: &str,
        now: u128,
        current: &str,
        new: &str,
        confirm: &str,
    ) -> (r: PasswordChangeStart)
        ensures
            final(self).credential_text() == old(self).credential_text(),
            final(self).session_list() == old(self).session_list(),
            !session_ok(old(self).session_list(), token@, now) ==> r
                == PasswordChangeStart::NotLoggedIn && final(self).attempts_used() == old(
                self,
            ).attempts_used() && final(self).window_start() == old(self).window_start(),
            session_ok(old(self).session_list(), token@, now) ==> ({
                let (used, window, allowed) = attempt_update(
                    old(self).attempts_used(),
                    old(self).window_start(),
                    now,
                );
                &&& final(self).attempts_used() == used
                &&& final(self).window_start() == window
                &&& !allowed ==> r == PasswordChangeStart::Throttled
                &&& allowed && !password_change_ok(current, new, confirm) ==> r
                    == PasswordChangeStart::InvalidNewPassword
                &&& allowed && password_change_ok(current, new, confirm) && !password_matches(
                    old(self).credential_text(),
                    current@,
                ) ==> r == PasswordChangeStart::WrongCurrentPassword
                &&& allowed && password_change_ok(current, new, confirm) && password_matches(
                    old(self).credential_text(),
                    current@,
                ) ==> (r matches PasswordChangeStart::Ready(s) && has_prefix(
                    s@,
                    default_argon2id_prefix(),
                ) && credential_ok(s@) && password_matches(s@, new@)) || r
                    == PasswordChangeStart::HashFailed
                &&& r == PasswordChangeStart::HashFailed ==> allowed && password_change_ok(
                    current,
                    new,
                    confirm,
                ) && password_matches(old(self).credential_text(), current@)
            }),
    {
        if !self.session_valid(token, now) {
            return PasswordChangeStart::NotLoggedIn;
        }
        if !self.allow_attempt(now) {
            return PasswordChangeStart::Throttled;
        }
        if !valid_password_change(current, new, confirm) {
            return PasswordChangeStart::InvalidNewPassword;
        }
        if !verify_password(self.credential.as_str(), current) {
            return PasswordChangeStart::WrongCurrentPassword;
        }
        match hash_password(new) {
            Ok(encoded) => PasswordChangeStart::Ready(encoded),
            Err(_) => PasswordChangeStart::HashFailed,
        }
    }
}

/// The outcome of a login.
#[derive(Debug, Clone, Copy, PartialEq, Eq)]
pub enum LoginOutcome {
    /// The password is longer than 512 bytes.
    Refused,
    /// The attempt budget of the current window is spent.
    Throttled,
    /// The password does not verify.
    WrongPassword,
    /// `MAX_SESSIONS` sessions are open.
    TooManySessions,
    /// A session was opened.
    Opened,
}

/// The outcome of the first part of a password change.
#[derive(Debug, Clone, PartialEq, Eq)]
pub enum PasswordChangeStart {
    /// The bearer token names no valid session.
    NotLoggedIn,
    /// The attempt budget of the current window is spent.
    Throttled,
    /// The new password breaks the rules, differs from its confirmation or
    /// equals the current one.
    InvalidNewPassword,
    /// The current password does not verify.
    WrongCurrentPassword,
    /// The new credential, to be stored and then handed to `change_credential`.
    Ready(String),
    /// No random salt could be had for the new credential.
    HashFailed,
}

/// Whether an attempt `elapsed` nanoseconds after the window started opens a new window.
pub open spec fn window_restarts(elapsed: u128) -> bool {
    elapsed >= ATTEMPT_WINDOW_NANOS
}

/// Attempts counted in the window that an attempt falls in, before it.
pub open spec fn attempts_before(used: u8, elapsed: u128) -> nat {
    if window_restarts(elapsed) {
        0
    } else {
        used as nat
    }
}

/// One attempt within its window: attempts used afterwards and whether it
/// was allowed.
pub open spec fn attempt_step(used: nat) -> (nat, bool) {
    if used < MAX_ATTEMPTS as nat {
        (used + 1, true)
    } else {
        (used, false)
    }
}

/// An attempt at `now` when `used` attempts are counted in the window that
/// started at `window`: attempts counted and window start afterwards, and
/// whether it is allowed.
pub open spec fn attempt_update(used: u8, window: u128, now: u128) -> (u8, u128, bool) {
    let elapsed = elapsed_since(window, now);
    let start = if window_restarts(elapsed) {
        now
    } else {
        window
    };
    let (after, allowed) = attempt_step(attempts_before(used, elapsed));
    (after as u8, start, allowed)
}

/// How many of the attempts at `nows`, made one after another, are allowed.
pub open spec fn allowed_attempts(used: u8, window: u128, nows: Seq<u128>) -> nat
    decreases nows.len(),
{
    if nows.len() == 0 {
        0
    } else {
        let (u, w, allowed) = attempt_update(used, window, nows[0]);
        (if allowed {
            1nat
        } else {
            0nat
        }) + allowed_attempts(u, w, nows.drop_first())
    }
}

/// All of `nows` fall within the 60 seconds after `window`.
pub open spec fn within_window(window: u128, nows: Seq<u128>) -> bool {
    forall|i: int| 0 <= i < nows.len() ==> window <= #[trigger] nows[i] && nows[i] - window < ATTEMPT_WINDOW_NANOS
}

proof fn lemma_allowed_within_window(used: u8, window: u128, nows: Seq<u128>)
    requires
        used <= MAX_ATTEMPTS,
        within_window(window, nows),
    ensures
        allowed_attempts(used, window, nows) == if nows.len() < MAX_ATTEMPTS - used {
            nows.len() as int
        } else {
            MAX_ATTEMPTS - used
        },
    decreases nows.len(),
{
    if nows.len() > 0 {
        assert(window <= nows[0] && nows[0] - window < ATTEMPT_WINDOW_NANOS);
        let (u, w, allowed) = attempt_update(used, window, nows[0]);
        assert(w == window);
        assert forall|i: int| 0 <= i < nows.drop_first().len() implies window
            <= #[trigger] nows.drop_first()[i] && nows.drop_first()[i] - window
            < ATTEMPT_WINDOW_NANOS by {
            assert(nows.drop_first()[i] == nows[i + 1]);
        }
        lemma_allowed_within_window(u, w, nows.drop_first());
    }
}

/// One budget per window for the whole administrator: of attempts made one
/// after another, whose times after the first all fall within 60 seconds of
/// the window that the first one leaves, at most five are allowed; every
/// attempt after the fifth allowed one is refused. With five or more
/// attempts from an unused window, exactly five are allowed.
pub proof fn law_attempt_budget(used: u8, window: u128, nows: Seq<u128>)
    requires
        used <= MAX_ATTEMPTS,
        nows.len() > 0,
        within_window(attempt_update(used, window, nows[0]).1, nows.drop_first()),
    ensures
        allowed_attempts(used, window, nows) <= MAX_ATTEMPTS,
        within_window(window, nows) ==> allowed_attempts(used, window, nows) == if nows.len()
            < MAX_ATTEMPTS - used {
            nows.len() as int
        } else {
            MAX_ATTEMPTS - used
        },
{
    let (u, w, allowed) = attempt_update(used, window, nows[0]);
    lemma_allowed_within_window(u, w, nows.drop_first());
    if within_window(window, nows) {
        lemma_allowed_within_window(used, window, nows);
    }
}


/// A new password is accepted when the current password fits the length
/// limit, the new one is a valid password, the confirmation matches, and it
/// differs from the current one.
pub open spec fn password_change_ok(current: &str, new: &str, confirm: &str) -> bool {
    &&& byte_len(current) <= 512
    &&& password_ok(new)
    &&& new@ == confirm@
    &&& current@ != new@
}

pub fn valid_password_change(current: &str, new: &str, confirm: &str) -> (r: bool)
    ensures
        r == password_change_ok(current, new, confirm),
{
    current.as_bytes().len() <= 512 && valid_password(new) && crate::text::same_text(new, confirm)
        && !crate::text::same_text(current, new)
}

} // verus!
