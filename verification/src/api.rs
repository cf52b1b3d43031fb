//! Rules of the server's endpoints: bearer tokens, agent keys and
//! connections, agent report limits, history queries and the
//! administrator's settings changes.
use vstd::prelude::*;

use crate::model::{
    latency_interval_ok, target_ok, valid_latency_interval, valid_target,
    LatencyTargets, NetworkCounter, SiteSettings, PROTOCOL_VERSION,
};
use crate::external::{constant_time_eq, sha256};
use crate::store::token_hash;
use crate::text::{
    chars_of, has_prefix, slice_chars, split_once, split_once_at, starts_with, string_of, trim,
    trimmed, utf8,
};

verus! {

/// Errors of settings changes.
#[derive(Debug, Clone, Copy, PartialEq, Eq)]
pub enum SettingsError {
    /// The probe interval is not 10 to 3600 seconds.
    InvalidInterval,
    /// A latency target is not a valid `host:port`.
    InvalidTarget,
    /// A site text is empty or too long.
    SiteTextLength,
}

// ---------------------------------------------------------------------------
// Tokens
// ---------------------------------------------------------------------------

/// The token of an `Authorization: Bearer <token>` header value.
pub open spec fn bearer_of(value: Seq<char>) -> Option<Seq<char>> {
    if has_prefix(value, "Bearer "@) {
        Some(value.skip("Bearer "@.len() as int))
    } else {
        None
    }
}

pub fn bearer_token(value: &str) -> (r: Option<String>)
    ensures
        match bearer_of(value@) {
            Some(t) => r matches Some(s) && s@ == t,
            None => r is None,
        },
{
    let v = chars_of(value);
    let p = chars_of("Bearer ");
    if starts_with(&v, &p) {
        let rest = slice_chars(&v, p.len(), v.len());
        assert(rest@ =~= v@.skip(p@.len() as int));
        Some(string_of(&rest))
    } else {
        None
    }
}

/// The node of an agent key `<node>.<secret>`: the key must hold a dot, be at
/// most 160 bytes, and name a node of at most 64 bytes.
pub open spec fn agent_node_of(token: Seq<char>) -> Option<Seq<char>> {
    match split_once(token, '.') {
        Some((node, _)) => if utf8(token).len() > 160 || utf8(node).len() > 64 {
            None
        } else {
            Some(node)
        },
        None => None,
    }
}

pub fn agent_token_node(token: &str) -> (r: Option<String>)
    ensures
        match agent_node_of(token@) {
            Some(n) => r matches Some(s) && s@ == n,
            None => r is None,
        },
{
    let v = chars_of(token);
    match split_once_at(&v, '.') {
        Some((node, _)) => {
            let node_text = string_of(&node);
            if token.as_bytes().len() > 160 || node_text.as_str().as_bytes().len() > 64 {
                None
            } else {
                Some(node_text)
            }
        },
        None => None,
    }
}

/// Whether an agent key hashes to the digest stored for its node; the
/// digests are compared in constant time.
pub fn key_matches(token: &str, stored_hash: &[u8]) -> (r: bool)
    ensures
        r == (sha256(utf8(token@)) == stored_hash@),
{
    let hash = token_hash(token);
    constant_time_eq(hash.as_slice(), stored_hash)
}

/// Whether two byte strings are equal.
fn same_bytes(a: &[u8], b: &[u8]) -> (r: bool)
    ensures
        r == (a@ == b@),
{
    if a.len() != b.len() {
        return false;
    }
    let mut i: usize = 0;
    while i < a.len()
        invariant
            i <= a.len() == b.len(),
            forall|j: int| 0 <= j < i ==> a@[j] == b@[j],
        decreases a.len() - i,
    {
        if a[i] != b[i] {
            return false;
        }
        i = i + 1;
    }
    assert(a@ =~= b@);
    true
}

/// A queued report counts only while it belongs to the node's current
/// connection and current key.
pub fn report_is_current(
    connection_id: u64,
    token_hash: &[u8],
    node_connection_id: u64,
    node_token_hash: &[u8],
) -> (r: bool)
    ensures
        r == (connection_id == node_connection_id && token_hash@ == node_token_hash@),
{
    connection_id == node_connection_id && same_bytes(token_hash, node_token_hash)
}

/// An upgraded agent connection takes its node over (closing the node's
/// previous connection) only while the node still has the key it was
/// accepted with and the server is not stopping.
pub fn may_take_over(node_token_hash: &[u8], token_hash: &[u8], stopping: bool) -> (r: bool)
    ensures
        r == (node_token_hash@ == token_hash@ && !stopping),
{
    !stopping && same_bytes(node_token_hash, token_hash)
}

// ---------------------------------------------------------------------------
// Agent reports
// ---------------------------------------------------------------------------

/// The identity of a latency round as a report states it.
#[derive(Debug, Clone, Copy, PartialEq, Eq)]
pub struct SampleMeta {
    pub id: u64,
    pub revision: u64,
    pub interval_seconds: Option<u64>,
}

/// The integer and text fields of an agent report.
#[derive(Debug, Clone)]
pub struct ReportSummary {
    pub protocol: u8,
    pub agent_version: String,
    pub boot_id: String,
    pub hostname: String,
    pub os: String,
    pub kernel: String,
    pub arch: String,
    pub virtualization: String,
    pub cpu_name: String,
    pub cpu_cores: u32,
    pub network: Vec<NetworkCounter>,
    pub latency_sample: Option<SampleMeta>,
}

pub open spec fn text_within(s: String, max: int) -> bool {
    utf8(s@).len() <= max
}

pub open spec fn counter_ok(c: NetworkCounter) -> bool {
    0 < utf8(c.name@).len() <= 32 && c.rx <= i64::MAX && c.tx <= i64::MAX
}

pub open spec fn sample_ok(s: SampleMeta) -> bool {
    &&& 0 < s.id <= i64::MAX
    &&& s.revision <= i64::MAX
    &&& match s.interval_seconds {
        Some(i) => latency_interval_ok(i),
        None => true,
    }
}

/// The limits on the integer and text fields of a report: current protocol,
/// bounded texts, a boot id, at most 4096 cores and 64 interfaces with short
/// names and counters that fit SQL integers, and a well-formed latency round.
pub open spec fn summary_ok(r: ReportSummary) -> bool {
    &&& r.protocol == PROTOCOL_VERSION
    &&& text_within(r.agent_version, 32)
    &&& 0 < utf8(r.boot_id@).len() <= 64
    &&& text_within(r.hostname, 255)
    &&& text_within(r.os, 255)
    &&& text_within(r.kernel, 128)
    &&& text_within(r.arch, 32)
    &&& text_within(r.virtualization, 32)
    &&& text_within(r.cpu_name, 255)
    &&& r.cpu_cores <= 4096
    &&& r.network@.len() <= 64
    &&& forall|i: int| 0 <= i < r.network@.len() ==> counter_ok(#[trigger] r.network@[i])
    &&& match r.latency_sample {
        Some(s) => sample_ok(s),
        None => true,
    }
}

/// A report's text fields are admitted by their UTF-8 length alone: changing
/// one of them in an admitted report keeps it admitted exactly while the new
/// text fits its limit (CPU name, host name and OS 255 bytes, kernel 128,
/// agent version, architecture and virtualization 32), and a text over its
/// limit is refused whatever the other fields hold.
pub proof fn law_report_text_limits(r: ReportSummary, text: String)
    ensures
        summary_ok(r) ==> (summary_ok((ReportSummary { cpu_name: text, ..r })) <==> utf8(text@).len()
            <= 255),
        summary_ok(r) ==> (summary_ok((ReportSummary { hostname: text, ..r })) <==> utf8(text@).len()
            <= 255),
        summary_ok(r) ==> (summary_ok((ReportSummary { os: text, ..r })) <==> utf8(text@).len()
            <= 255),
        summary_ok(r) ==> (summary_ok((ReportSummary { kernel: text, ..r })) <==> utf8(text@).len()
            <= 128),
        summary_ok(r) ==> (summary_ok((ReportSummary { agent_version: text, ..r })) <==> utf8(
            text@,
        ).len() <= 32),
        summary_ok(r) ==> (summary_ok((ReportSummary { arch: text, ..r })) <==> utf8(text@).len()
            <= 32),
        summary_ok(r) ==> (summary_ok((ReportSummary { virtualization: text, ..r })) <==> utf8(
            text@,
        ).len() <= 32),
        utf8(r.cpu_name@).len() > 255 || utf8(r.hostname@).len() > 255 || utf8(r.os@).len() > 255
            || utf8(r.kernel@).len() > 128 || utf8(r.agent_version@).len() > 32 || utf8(
            r.arch@,
        ).len() > 32 || utf8(r.virtualization@).len() > 32 ==> !summary_ok(r),
{
}

fn byte_len(s: &String) -> (r: usize)
    ensures
        r == utf8(s@).len(),
{
    s.as_str().as_bytes().len()
}

pub fn valid_report_summary(r: &ReportSummary) -> (ok: bool)
    ensures
        ok == summary_ok(*r),
{
    if !(r.protocol == PROTOCOL_VERSION && byte_len(&r.agent_version) <= 32 && byte_len(&r.boot_id)
        > 0 && byte_len(&r.boot_id) <= 64 && byte_len(&r.hostname) <= 255 && byte_len(&r.os) <= 255
        && byte_len(&r.kernel) <= 128 && byte_len(&r.arch) <= 32 && byte_len(&r.virtualization)
        <= 32 && byte_len(&r.cpu_name) <= 255 && r.cpu_cores <= 4096 && r.network.len() <= 64) {
        return false;
    }
    let mut i: usize = 0;
    while i < r.network.len()
        invariant
            i <= r.network.len(),
            forall|j: int| 0 <= j < i ==> counter_ok(#[trigger] r.network@[j]),
        decreases r.network.len() - i,
    {
        let c = &r.network[i];
        let n = byte_len(&c.name);
        if n == 0 || n > 32 || c.rx > i64::MAX as u64 || c.tx > i64::MAX as u64 {
            return false;
        }
        i = i + 1;
    }
    match r.latency_sample {
        Some(s) => s.id > 0 && s.id <= i64::MAX as u64 && s.revision <= i64::MAX as u64 && match s.interval_seconds {
            Some(seconds) => valid_latency_interval(seconds),
            None => true,
        },
        None => true,
    }
}

/// Reports closer together than 200 milliseconds end the connection.
pub const MIN_REPORT_GAP_NANOS: u128 = 200_000_000;

/// A report is passed on when its fields are within bounds, its measured
/// numbers are (`numbers_ok`), and it came at least 200 ms after the
/// previous one; otherwise the server closes the connection.
pub open spec fn report_admitted(r: ReportSummary, numbers_ok: bool, since_last_nanos: u128) -> bool {
    summary_ok(r) && numbers_ok && since_last_nanos >= MIN_REPORT_GAP_NANOS
}

pub fn admit_report(r: &ReportSummary, numbers_ok: bool, since_last_nanos: u128) -> (ok: bool)
    ensures
        ok == report_admitted(*r, numbers_ok, since_last_nanos),
{
    valid_report_summary(r) && numbers_ok && since_last_nanos >= MIN_REPORT_GAP_NANOS
}

// ---------------------------------------------------------------------------
// History queries
// ---------------------------------------------------------------------------

/// The range and kind of a history request: six hours of resources unless
/// given; 1 to 720 hours, of `resources` or `latency`.
pub open spec fn history_query_of(hours: Option<u32>, kind: Option<Seq<char>>) -> Option<(u32, bool)> {
    let h = match hours {
        Some(h) => h,
        None => 6u32,
    };
    let k = match kind {
        Some(k) => k,
        None => "resources"@,
    };
    if 1 <= h <= 720 && (k == "resources"@ || k == "latency"@) {
        Some((h, k == "latency"@))
    } else {
        None
    }
}

pub fn history_query(hours: Option<u32>, kind: Option<&str>) -> (r: Option<(u32, bool)>)
    ensures
        r == history_query_of(
            hours,
            match kind {
                Some(k) => Some(k@),
                None => None,
            },
        ),
{
    let h = match hours {
        Some(h) => h,
        None => 6,
    };
    let k = match kind {
        Some(k) => chars_of(k),
        None => chars_of("resources"),
    };
    let resources = chars_of("resources");
    let latency = chars_of("latency");
    let is_latency = crate::text::same_chars(&k, &latency);
    if 1 <= h && h <= 720 && (crate::text::same_chars(&k, &resources) || is_latency) {
        Some((h, is_latency))
    } else {
        None
    }
}

// ---------------------------------------------------------------------------
// Settings changes
// ---------------------------------------------------------------------------

/// The latency settings after a change: the interval defaults to the
/// current one and must be 10 to 3600 seconds; every target must be valid.
pub open spec fn latency_update_of(
    telecom: Seq<char>,
    unicom: Seq<char>,
    mobile: Seq<char>,
    interval: Option<u64>,
    current_interval: u64,
) -> Result<u64, SettingsError> {
    let seconds = match interval {
        Some(s) => s,
        None => current_interval,
    };
    if !latency_interval_ok(seconds) {
        Err(SettingsError::InvalidInterval)
    } else if !(target_ok(telecom) && target_ok(unicom) && target_ok(mobile)) {
        Err(SettingsError::InvalidTarget)
    } else {
        Ok(seconds)
    }
}

pub fn latency_update(
    telecom: String,
    unicom: String,
    mobile: String,
    interval: Option<u64>,
    current: &LatencyTargets,
) -> (r: Result<LatencyTargets, SettingsError>)
    ensures
        match latency_update_of(telecom@, unicom@, mobile@, interval, current.interval_seconds) {
            Ok(seconds) => r matches Ok(t) && t.telecom == telecom && t.unicom == unicom && t.mobile
                == mobile && t.interval_seconds == seconds,
            Err(e) => r == Err::<LatencyTargets, SettingsError>(e),
        },
{
    let seconds = match interval {
        Some(s) => s,
        None => current.interval_seconds,
    };
    if !valid_latency_interval(seconds) {
        return Err(SettingsError::InvalidInterval);
    }
    if !(valid_target(telecom.as_str()) && valid_target(unicom.as_str()) && valid_target(
        mobile.as_str(),
    )) {
        return Err(SettingsError::InvalidTarget);
    }
    Ok(LatencyTargets { telecom, unicom, mobile, interval_seconds: seconds })
}

/// Site texts are trimmed; the name must have 1 to 40 characters, the
/// description and footer at most 120 each.
pub open spec fn site_ok(name: Seq<char>, description: Seq<char>, footer: Seq<char>) -> bool {
    &&& 0 < trim(name).len() <= 40
    &&& trim(description).len() <= 120
    &&& trim(footer).len() <= 120
}

pub fn normalize_site(site: &SiteSettings) -> (r: Result<SiteSettings, SettingsError>)
    ensures
        r is Ok <==> site_ok(site.name@, site.description@, site.footer@),
        r matches Ok(s) ==> s.name@ == trim(site.name@) && s.description@ == trim(
            site.description@,
        ) && s.footer@ == trim(site.footer@),
        r matches Err(e) ==> e == SettingsError::SiteTextLength,
{
    let name = trimmed(&chars_of(site.name.as_str()));
    let description = trimmed(&chars_of(site.description.as_str()));
    let footer = trimmed(&chars_of(site.footer.as_str()));
    if name.len() == 0 || name.len() > 40 || description.len() > 120 || footer.len() > 120 {
        return Err(SettingsError::SiteTextLength);
    }
    Ok(
        SiteSettings {
            name: string_of(&name),
            description: string_of(&description),
            footer: string_of(&footer),
        },
    )
}

} // verus!
