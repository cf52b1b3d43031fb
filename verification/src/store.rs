//! Rules of the server's database: node identifiers, names and keys,
//! schema versions, stored settings, latency target revisions, history
//! windows, retention and the conversions of unsigned counters to SQL integers.
use vstd::prelude::*;

use crate::accounting::minute_of;
use crate::auth::hash_password;
use crate::external::{
    base64url_encode, base64url_text, default_argon2id_prefix, push_char, random_bytes, sha256,
    sha256_digest, url_safe_char,
};
use crate::model::{AppSettings, LatencyTargets, SiteSettings};
use crate::text::{
    chars_of, has_prefix, parse_u64, parse_unsigned, push_str, string_of, trim, trimmed, utf8,
};

verus! {

/// Errors of the database rules.
#[derive(Debug, Clone, Copy, PartialEq, Eq)]
pub enum StoreError {
    /// A node identifier is not 1 to 64 letters, digits, `-` or `_`.
    InvalidId,
    /// A node name is not 1 to 80 characters after trimming.
    InvalidName,
    /// The database was created by a newer version.
    NewerSchema,
    /// A history range is not 1 to 720 hours.
    InvalidHours,
    /// The operating system gave no random bytes for a key.
    RandomUnavailable,
}

// ---------------------------------------------------------------------------
// SQL integers
// ---------------------------------------------------------------------------

/// An unsigned counter as an SQL integer, capped at `i64::MAX`.
pub fn to_sql_u64(value: u64) -> (r: i64)
    ensures
        r == if value > i64::MAX as u64 {
            i64::MAX as int
        } else {
            value as int
        },
{
    if value > i64::MAX as u64 {
        i64::MAX
    } else {
        value as i64
    }
}

/// An SQL integer as an unsigned counter; negative values read as zero.
pub fn from_sql_u64(value: i64) -> (r: u64)
    ensures
        r == if value < 0 {
            0
        } else {
            value as int
        },
{
    if value < 0 {
        0
    } else {
        value as u64
    }
}

/// A stored CPU core count: negative values read as zero, larger ones keep
/// their low 32 bits.
pub fn cores_from_sql(value: i64) -> (r: u32)
    ensures
        r == (if value < 0 {
            0
        } else {
            value
        }) as u32,
{
    let v = if value < 0 {
        0
    } else {
        value
    };
    #[verifier::truncate]
    (v as u32)
}

/// Counters up to `i64::MAX` are stored and read back unchanged.
pub proof fn law_sql_counter_roundtrip(value: u64)
    requires
        value <= i64::MAX,
    ensures
        ({
            let stored: i64 = value as i64;
            stored == value as int && (if stored < 0 {
                0
            } else {
                stored as int
            }) == value as int
        }),
{
}

// ---------------------------------------------------------------------------
// Nodes
// ---------------------------------------------------------------------------

pub open spec fn id_byte_ok(b: u8) -> bool {
    ||| 0x30 <= b <= 0x39
    ||| 0x41 <= b <= 0x5A
    ||| 0x61 <= b <= 0x7A
    ||| b == 0x2D
    ||| b == 0x5F
}

/// A node identifier: 1 to 64 bytes, each an ASCII letter, digit, `-` or `_`.
pub open spec fn id_ok(id: Seq<char>) -> bool {
    let b = utf8(id);
    0 < b.len() <= 64 && forall|i: int| 0 <= i < b.len() ==> id_byte_ok(#[trigger] b[i])
}

pub fn validate_id(id: &str) -> (r: Result<(), StoreError>)
    ensures
        r is Ok <==> id_ok(id@),
        r matches Err(e) ==> e == StoreError::InvalidId,
{
    let bytes = id.as_bytes();
    if bytes.len() == 0 || bytes.len() > 64 {
        return Err(StoreError::InvalidId);
    }
    let mut i: usize = 0;
    while i < bytes.len()
        invariant
            i <= bytes.len(),
            bytes@ == utf8(id@),
            forall|j: int| 0 <= j < i ==> id_byte_ok(#[trigger] bytes@[j]),
        decreases bytes.len() - i,
    {
        let b = bytes[i];
        if !((0x30 <= b && b <= 0x39) || (0x41 <= b && b <= 0x5A) || (0x61 <= b && b <= 0x7A) || b
            == 0x2D || b == 0x5F) {
            return Err(StoreError::InvalidId);
        }
        i = i + 1;
    }
    Ok(())
}

/// A node name: 1 to 80 characters once surrounding whitespace is trimmed.
pub open spec fn name_ok(name: Seq<char>) -> bool {
    0 < trim(name).len() <= 80
}

/// The trimmed node name, if it is acceptable.
pub fn normalize_node_name(name: &str) -> (r: Result<String, StoreError>)
    ensures
        r is Ok <==> name_ok(name@),
        r matches Ok(n) ==> n@ == trim(name@),
        r matches Err(e) ==> e == StoreError::InvalidName,
{
    let v = chars_of(name);
    let t = trimmed(&v);
    if t.len() == 0 || t.len() > 80 {
        return Err(StoreError::InvalidName);
    }
    Ok(string_of(&t))
}

/// `bytes` random bytes in URL-safe base64 without padding; nothing when
/// the operating system gives no random bytes.
pub fn random_secret(bytes: usize) -> (r: Option<String>)
    requires
        bytes <= isize::MAX,
    ensures
        r matches Some(s) ==> {
            &&& exists|raw: Seq<u8>| raw.len() == bytes && s@ == #[trigger] base64url_text(raw)
            &&& forall|i: int| 0 <= i < s@.len() ==> url_safe_char(#[trigger] s@[i])
            &&& s@.len() == (4 * bytes + 2) / 3
        },
{
    match random_bytes(bytes) {
        Some(raw) => Some(base64url_encode(raw.as_slice())),
        None => None,
    }
}

/// The stored digest of a node key: SHA-256 of its UTF-8 bytes.
pub fn token_hash(token: &str) -> (r: Vec<u8>)
    ensures
        r@ == sha256(utf8(token@)),
        r@.len() == 32,
{
    sha256_digest(token.as_bytes())
}

/// `token` is `id`, a dot, and 43 URL-safe characters (32 bytes in base64).
pub open spec fn node_token_for(token: Seq<char>, id: Seq<char>) -> bool {
    exists|secret: Seq<char>|
        token == id + seq!['.'] + secret && secret.len() == 43 && (forall|i: int|
            0 <= i < secret.len() ==> url_safe_char(#[trigger] secret[i]))
}

/// A fresh key for node `id`: the identifier, a dot, and 32 random bytes in
/// URL-safe base64; nothing when the operating system gives no random bytes.
pub fn new_node_token(id: &str) -> (r: Option<String>)
    ensures
        r matches Some(t) ==> node_token_for(t@, id@),
{
    let secret = match random_secret(32) {
        Some(s) => s,
        None => return None,
    };
    let mut token = id.to_owned();
    push_char(&mut token, '.');
    push_str(&mut token, secret.as_str());
    proof {
        assert(token@ =~= id@ + seq!['.'] + secret@);
        assert(token@ == id@ + seq!['.'] + secret@ && secret@.len() == 43 && (forall|i: int|
            0 <= i < secret@.len() ==> url_safe_char(#[trigger] secret@[i])));
    }
    Some(token)
}

/// A node ready to be inserted: checked identifier and name, its key, and
/// the digest that is stored for the key.
#[derive(Debug, Clone)]
pub struct NewNode {
    pub id: String,
    pub name: String,
    pub token: String,
    pub token_hash: Vec<u8>,
}

/// Checks the identifier, then the name, and makes a key; the key fails
/// only when the operating system gives no random bytes.
pub fn prepare_node(id: &str, name: &str) -> (r: Result<NewNode, StoreError>)
    ensures
        r is Ok ==> id_ok(id@) && name_ok(name@),
        !id_ok(id@) ==> r == Err::<NewNode, StoreError>(StoreError::InvalidId),
        id_ok(id@) && !name_ok(name@) ==> r == Err::<NewNode, StoreError>(
            StoreError::InvalidName,
        ),
        id_ok(id@) && name_ok(name@) ==> r is Ok || r == Err::<NewNode, StoreError>(
            StoreError::RandomUnavailable,
        ),
        r matches Ok(n) ==> {
            &&& n.id@ == id@
            &&& n.name@ == trim(name@)
            &&& node_token_for(n.token@, id@)
            &&& n.token_hash@ == sha256(utf8(n.token@))
        },
{
    validate_id(id)?;
    let name = normalize_node_name(name)?;
    let token = match new_node_token(id) {
        Some(t) => t,
        None => return Err(StoreError::RandomUnavailable),
    };
    let hash = token_hash(token.as_str());
    Ok(NewNode { id: id.to_owned(), name, token, token_hash: hash })
}

/// A replacement key for node `id` and its stored digest; the key fails
/// only when the operating system gives no random bytes.
pub fn rotation_token(id: &str) -> (r: Result<(String, Vec<u8>), StoreError>)
    ensures
        !id_ok(id@) ==> r == Err::<(String, Vec<u8>), StoreError>(StoreError::InvalidId),
        id_ok(id@) ==> r is Ok || r == Err::<(String, Vec<u8>), StoreError>(
            StoreError::RandomUnavailable,
        ),
        r matches Ok((token, hash)) ==> node_token_for(token@, id@) && hash@ == sha256(
            utf8(token@),
        ),
{
    validate_id(id)?;
    let token = match new_node_token(id) {
        Some(t) => t,
        None => return Err(StoreError::RandomUnavailable),
    };
    let hash = token_hash(token.as_str());
    Ok((token, hash))
}

/// A new random administrator secret of 24 bytes (32 URL-safe characters)
/// and the credential stored for it: a salted Argon2id PHC string with the
/// default parameters, which the secret verifies against. Nothing when the
/// operating system gives no random bytes for the secret or the salt.
pub fn new_admin_secret() -> (r: Option<(String, String)>)
    ensures
        r matches Some((secret, credential)) ==> {
            &&& secret@.len() == 32
            &&& forall|i: int| 0 <= i < secret@.len() ==> url_safe_char(#[trigger] secret@[i])
            &&& has_prefix(credential@, default_argon2id_prefix())
            &&& crate::auth::credential_ok(credential@)
            &&& crate::auth::password_matches(credential@, secret@)
        },
{
    let password = match random_secret(24) {
        Some(p) => p,
        None => return None,
    };
    proof {
        assert(vstd::utf8::is_ascii_chars(password@)) by {
            assert forall|i: int| 0 <= i < password@.len() implies '\0' <= #[trigger] password@[i]
                <= '\u{7f}' by {
                assert(url_safe_char(password@[i]));
            }
        }
        vstd::utf8::is_ascii_chars_encode_utf8(password@);
    }
    match hash_password(password.as_str()) {
        Ok(credential) => Some((password, credential)),
        Err(_) => None,
    }
}

// ---------------------------------------------------------------------------
// Schema
// ---------------------------------------------------------------------------

/// The schema version this library writes.
pub const SCHEMA_VERSION: u32 = 2;

/// Whether a database at `version` must be migrated; a newer version is refused.
pub fn needs_migration(version: u32) -> (r: Result<bool, StoreError>)
    ensures
        version > SCHEMA_VERSION ==> r == Err::<bool, StoreError>(StoreError::NewerSchema),
        version == SCHEMA_VERSION ==> r == Ok::<bool, StoreError>(false),
        version < SCHEMA_VERSION ==> r == Ok::<bool, StoreError>(true),
{
    if version > SCHEMA_VERSION {
        Err(StoreError::NewerSchema)
    } else {
        Ok(version != SCHEMA_VERSION)
    }
}

// ---------------------------------------------------------------------------
// Settings
// ---------------------------------------------------------------------------

/// Settings from what is stored: each missing or unreadable value takes its
/// default, and the revision reads as zero unless it is a `u64`.
pub fn assemble_settings(
    latency: Option<LatencyTargets>,
    site: Option<SiteSettings>,
    revision: Option<String>,
) -> (r: AppSettings)
    ensures
        latency matches Some(l) ==> r.latency == l,
        latency is None ==> r.latency.telecom@ == "ha-ct-v4.ip.zstaticcdn.com:80"@
            && r.latency.unicom@ == "ha-cu-v4.ip.zstaticcdn.com:80"@ && r.latency.mobile@
            == "ha-cm-v4.ip.zstaticcdn.com:80"@ && r.latency.interval_seconds == 30,
        site matches Some(s) ==> r.site == s,
        site is None ==> r.site.name@ == "Monitor"@ && r.site.description@ == "服务器状态"@
            && r.site.footer@.len() == 0,
        r.latency_revision == match revision {
            Some(text) => match parse_unsigned(text@, u64::MAX as nat) {
                Some(n) => n,
                None => 0,
            },
            None => 0,
        },
{
    let latency = match latency {
        Some(l) => l,
        None => LatencyTargets::default(),
    };
    let site = match site {
        Some(s) => s,
        None => SiteSettings::default(),
    };
    let latency_revision = match revision {
        Some(text) => {
            let v = chars_of(text.as_str());
            match parse_u64(&v) {
                Some(n) => n,
                None => 0,
            }
        },
        None => 0,
    };
    AppSettings { latency, latency_revision, site }
}

/// The revision after saving targets `saved` where `stored` were kept at
/// `revision`: unchanged targets keep their revision, new ones advance it by one.
pub open spec fn revision_after(
    stored: (Seq<char>, Seq<char>, Seq<char>, u64),
    revision: int,
    saved: (Seq<char>, Seq<char>, Seq<char>, u64),
) -> int {
    if stored == saved {
        revision
    } else {
        revision + 1
    }
}

/// The revision after saving `targets` over `current`, and whether to write.
pub fn next_latency_revision(current: &AppSettings, targets: &LatencyTargets) -> (r: (u64, bool))
    requires
        current.latency.model() != targets.model() ==> current.latency_revision < u64::MAX,
    ensures
        r.1 == (current.latency.model() != targets.model()),
        r.0 == revision_after(
            current.latency.model(),
            current.latency_revision as int,
            targets.model(),
        ),
{
    if current.latency.same_as(targets) {
        (current.latency_revision, false)
    } else {
        (current.latency_revision + 1, true)
    }
}

/// Saving the same targets a second time keeps the revision of the first
/// save, and a change of targets always gives a newer revision, so history
/// of different targets is never mixed.
pub proof fn law_revision_changes_only_with_targets(
    stored: (Seq<char>, Seq<char>, Seq<char>, u64),
    revision: int,
    saved: (Seq<char>, Seq<char>, Seq<char>, u64),
)
    ensures
        revision_after(saved, revision_after(stored, revision, saved), saved) == revision_after(
            stored,
            revision,
            saved,
        ),
        stored != saved ==> revision_after(stored, revision, saved) > revision,
        stored == saved ==> revision_after(stored, revision, saved) == revision,
{
}

// ---------------------------------------------------------------------------
// History
// ---------------------------------------------------------------------------

/// History is kept for 30 days.
pub const RETENTION_SECS: i64 = 2_592_000;

/// Oldest resource minute and oldest latency time kept at `now`.
pub fn prune_cutoffs(now: i64) -> (r: (i64, i64))
    requires
        now >= i64::MIN + RETENTION_SECS,
    ensures
        r.0 == now / 60 - 43200,
        r.1 == now - RETENTION_SECS,
{
    (minute_of(now) - 43200, now - RETENTION_SECS)
}

/// Everything older than 30 days is pruned, and nothing younger.
pub proof fn law_retention_is_thirty_days(now: i64, at: i64)
    requires
        now >= i64::MIN + RETENTION_SECS,
    ensures
        at < now - RETENTION_SECS <==> now - at > RETENTION_SECS,
{
}

/// History is pruned at most once an hour.
pub const PRUNE_EVERY_SECS: i64 = 3600;

/// Whether the writer prunes history after a batch written at `now`, when it
/// last pruned at `last_prune`.
pub fn prune_due(now: i64, last_prune: i64) -> (r: bool)
    requires
        i64::MIN <= now - last_prune <= i64::MAX,
    ensures
        r == (now - last_prune >= PRUNE_EVERY_SECS),
{
    now - last_prune >= PRUNE_EVERY_SECS
}

/// While stopping, a batch that still cannot be written is given up after 20 seconds.
pub const GIVE_UP_NANOS: u128 = 20_000_000_000;

/// Whether the writer keeps retrying a failed batch: always while the
/// server runs, and for 20 seconds once it is stopping.
pub fn keep_retrying(stopping: bool, stopping_for_nanos: u128) -> (r: bool)
    ensures
        r == (!stopping || stopping_for_nanos < GIVE_UP_NANOS),
{
    !stopping || stopping_for_nanos < GIVE_UP_NANOS
}

/// The writer takes at most this many queued events into one transaction.
pub const MAX_BATCH: usize = 512;

/// A history query: its range, bucket width, and the bounds in the units of
/// the table it reads (seconds for latency, minutes for resources).
#[derive(Debug, Clone, Copy)]
pub struct HistoryPlan {
    pub from: i64,
    pub to: i64,
    pub step: i64,
    pub latency: bool,
    /// Lower bound, bucket width and upper bound in table units.
    pub query_from: i64,
    pub query_step: i64,
    pub query_to: i64,
}

/// Bucket width for `hours` of history: the smallest multiple of the
/// table's resolution (30 s for latency, 60 s for resources) that splits the
/// range into at most 1,200 buckets.
pub open spec fn bucket_width(hours: int, latency: bool) -> int {
    let span = hours * 3600;
    let quantum = if latency {
        30int
    } else {
        60int
    };
    let n = (span + 1199 * quantum) / (1200 * quantum);
    (if n < 1 {
        1
    } else {
        n
    }) * quantum
}

pub open spec fn hours_ok(hours: u32) -> bool {
    1 <= hours <= 720
}

proof fn lemma_bucket_count(hours: int, span: int, quantum: int)
    requires
        1 <= hours <= 720,
        span == hours * 3600,
        quantum == 30 || quantum == 60,
    ensures
        ({
            let n = (span + 1199 * quantum) / (1200 * quantum);
            &&& 1 <= n <= 73
            &&& span <= 1200 * quantum * n
            &&& (n * quantum) % quantum == 0
        }),
{
    if quantum == 30 {
        assert(1199 * quantum == 35970 && 1200 * quantum == 36000);
        let n = (span + 35970) / 36000;
        assert(36000 * n <= span + 35970 < 36000 * n + 36000);
        assert(1 <= n <= 73);
        assert((span + 1199 * quantum) / (1200 * quantum) == n);
        assert(1200 * quantum * n == 36000 * n) by (nonlinear_arith)
            requires
                quantum == 30,
        ;
        assert((n * quantum) % quantum == 0) by (nonlinear_arith)
            requires
                quantum == 30,
        ;
    } else {
        assert(1199 * quantum == 71940 && 1200 * quantum == 72000);
        let n = (span + 71940) / 72000;
        assert(72000 * n <= span + 71940 < 72000 * n + 72000);
        assert(1 <= n <= 73);
        assert((span + 1199 * quantum) / (1200 * quantum) == n);
        assert(1200 * quantum * n == 72000 * n) by (nonlinear_arith)
            requires
                quantum == 60,
        ;
        assert((n * quantum) % quantum == 0) by (nonlinear_arith)
            requires
                quantum == 60,
        ;
    }
}

/// Plans a history query for node `id` over the `hours` before `now`.
pub fn plan_history(id: &str, hours: u32, latency: bool, now: i64) -> (r: Result<
    HistoryPlan,
    StoreError,
>)
    requires
        i64::MIN + RETENTION_SECS <= now <= i64::MAX - 59,
    ensures
        !id_ok(id@) ==> r == Err::<HistoryPlan, StoreError>(StoreError::InvalidId),
        id_ok(id@) && !hours_ok(hours) ==> r == Err::<HistoryPlan, StoreError>(
            StoreError::InvalidHours,
        ),
        r is Ok <==> id_ok(id@) && hours_ok(hours),
        r matches Ok(p) ==> {
            &&& p.to == now
            &&& p.from == now - hours * 3600
            &&& p.step == bucket_width(hours as int, latency)
            &&& p.latency == latency
            &&& latency ==> p.query_from == p.from && p.query_step == p.step && p.query_to == now
            &&& !latency ==> p.query_from == (p.from + 59) / 60 && p.query_step == p.step / 60
                && p.query_to == (now + 59) / 60
        },
{
    validate_id(id)?;
    if hours < 1 || hours > 720 {
        return Err(StoreError::InvalidHours);
    }
    let span: i64 = hours as i64 * 3600;
    let quantum: i64 = if latency {
        30
    } else {
        60
    };
    proof {
        lemma_bucket_count(hours as int, span as int, quantum as int);
    }
    let n = (span + 1199 * quantum) / (1200 * quantum);
    let step = (if n < 1 {
        1
    } else {
        n
    }) * quantum;
    let from = now - span;
    if latency {
        Ok(
            HistoryPlan {
                from,
                to: now,
                step,
                latency,
                query_from: from,
                query_step: step,
                query_to: now,
            },
        )
    } else {
        let query_from = minute_of(from + 59);
        let query_to = minute_of(now + 59);
        Ok(
            HistoryPlan {
                from,
                to: now,
                step,
                latency,
                query_from,
                query_step: step / 60,
                query_to,
            },
        )
    }
}

/// A history range splits into at most 1,200 buckets of the planned width,
/// each a whole number of table resolutions.
pub proof fn law_history_has_at_most_1200_points(hours: u32, latency: bool)
    requires
        hours_ok(hours),
    ensures
        ({
            let span = hours * 3600;
            let step = bucket_width(hours as int, latency);
            let quantum = if latency {
                30int
            } else {
                60int
            };
            &&& step >= quantum
            &&& step % quantum == 0
            &&& span <= 1200 * step
        }),
{
    let span = hours * 3600;
    let quantum = if latency {
        30int
    } else {
        60int
    };
    lemma_bucket_count(hours as int, span, quantum);
    let n = (span + 1199 * quantum) / (1200 * quantum);
    assert(span <= 1200 * (n * quantum) && n * quantum >= quantum) by (nonlinear_arith)
        requires
            span <= 1200 * quantum * n,
            n >= 1,
            quantum > 0,
    ;
}

} // verus!
