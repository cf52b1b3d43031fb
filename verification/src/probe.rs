//! What the agent computes from the Linux files it reads: interface
//! counters, CPU and memory figures, the OS name, the virtualization kind,
//! socket and process counts, disk usage, its connection settings and what
//! it does about each event on its connection to the server.
use vstd::prelude::*;

use std::time::Duration;

use crate::model::{
    latency_interval_ok, targets_ok, valid_latency_interval, valid_targets, LatencyTargets,
    NetworkCounter,
};
use crate::text::{
    chars_of, contains, contains_chars, has_prefix, has_suffix, lines, lowercase, parse_u64,
    parse_unsigned, push_str, split_lines, split_once, split_once_at, split_words, starts_with,
    ends_with, is_space, string_of, to_lowercase, trim, trim_end, trim_start, trimmed, views, words,
    slice_chars,
};

verus! {

/// Errors of the agent's parsers.
#[derive(Debug, Clone, Copy, PartialEq, Eq)]
pub enum ProbeError {
    /// A line of `/proc/net/dev` has fewer than nine counter fields.
    NetworkFormat,
    /// A counter of `/proc/net/dev` is not a `u64`.
    NetworkNumber,
    /// More than 64 interfaces are listed.
    TooManyInterfaces,
    /// The first line of `/proc/stat` has fewer than four numbers.
    CpuFormat,
}

/// How the agent reaches the server and what it measures.
#[derive(Debug, Clone)]
pub struct AgentOptions {
    pub server: String,
    pub token: String,
    pub interval: Duration,
    pub disk: String,
    pub telecom: String,
    pub unicom: String,
    pub mobile: String,
}

/// The report interval must be from one to ten seconds.
pub open spec fn report_interval_ok(secs: u64, nanos: u32) -> bool {
    secs >= 1 && (secs < 10 || (secs == 10 && nanos == 0))
}

/// Whether an interval of `secs` seconds and `nanos` nanoseconds is from one
/// to ten seconds.
pub fn valid_report_interval(secs: u64, nanos: u32) -> (r: bool)
    ensures
        r == report_interval_ok(secs, nanos),
{
    secs >= 1 && (secs < 10 || (secs == 10 && nanos == 0))
}

// ---------------------------------------------------------------------------
// Server address
// ---------------------------------------------------------------------------

/// `s` without any number of trailing `c`.
pub open spec fn trim_end_char(s: Seq<char>, c: char) -> Seq<char>
    decreases s.len(),
{
    if s.len() > 0 && s.last() == c {
        trim_end_char(s.drop_last(), c)
    } else {
        s
    }
}

/// The agent's WebSocket endpoint for a server address: surrounding space
/// and trailing slashes dropped, `https://` and `http://` turned into
/// `wss://` and `ws://`, and `/api/agent` appended unless already there.
pub open spec fn endpoint_of(server: Seq<char>) -> Seq<char> {
    let v = trim_end_char(trim(server), '/');
    let w = if has_prefix(v, "https://"@) {
        "wss://"@ + v.skip("https://"@.len() as int)
    } else if has_prefix(v, "http://"@) {
        "ws://"@ + v.skip("http://"@.len() as int)
    } else {
        v
    };
    if has_suffix(w, "/api/agent"@) {
        w
    } else {
        w + "/api/agent"@
    }
}

pub fn websocket_endpoint(server: &str) -> (r: String)
    ensures
        r@ == endpoint_of(server@),
{
    let all = chars_of(server);
    let t = trimmed(&all);
    let mut end = t.len();
    assert(t@.take(end as int) =~= t@);
    while end > 0 && t[end - 1] == '/'
        invariant
            end <= t.len(),
            trim_end_char(t@, '/') == trim_end_char(t@.take(end as int), '/'),
        decreases end,
    {
        proof {
            assert(t@.take(end as int).drop_last() =~= t@.take(end - 1));
        }
        end = end - 1;
    }
    proof {
        assert(trim_end_char(t@.take(end as int), '/') == t@.take(end as int));
    }
    let v = slice_chars(&t, 0, end);
    assert(v@ =~= t@.take(end as int));
    let https = chars_of("https://");
    let http = chars_of("http://");
    let mut w = String::new();
    if starts_with(&v, &https) {
        push_str(&mut w, "wss://");
        let rest = slice_chars(&v, https.len(), v.len());
        assert(rest@ =~= v@.skip(https@.len() as int));
        push_str(&mut w, string_of(&rest).as_str());
    } else if starts_with(&v, &http) {
        push_str(&mut w, "ws://");
        let rest = slice_chars(&v, http.len(), v.len());
        assert(rest@ =~= v@.skip(http@.len() as int));
        push_str(&mut w, string_of(&rest).as_str());
    } else {
        push_str(&mut w, string_of(&v).as_str());
    }
    assert(w@ =~= (if has_prefix(v@, "https://"@) {
        "wss://"@ + v@.skip("https://"@.len() as int)
    } else if has_prefix(v@, "http://"@) {
        "ws://"@ + v@.skip("http://"@.len() as int)
    } else {
        v@
    }));
    let wv = chars_of(w.as_str());
    let suffix = chars_of("/api/agent");
    if !ends_with(&wv, &suffix) {
        push_str(&mut w, "/api/agent");
    }
    w
}

/// What `trim_end_char` leaves is a prefix of its argument that does not
/// end with `c`.
proof fn lemma_trim_end_char(s: Seq<char>, c: char)
    ensures
        trim_end_char(s, c).len() <= s.len(),
        trim_end_char(s, c) == s.take(trim_end_char(s, c).len() as int),
        trim_end_char(s, c).len() > 0 ==> trim_end_char(s, c).last() != c,
    decreases s.len(),
{
    if s.len() > 0 && s.last() == c {
        lemma_trim_end_char(s.drop_last(), c);
        let r = trim_end_char(s.drop_last(), c);
        assert(s.drop_last().take(r.len() as int) =~= s.take(r.len() as int));
    } else {
        assert(s.take(s.len() as int) =~= s);
    }
}

/// What `trim_start` leaves does not start with whitespace.
proof fn lemma_trim_start_first(s: Seq<char>)
    ensures
        trim_start(s).len() > 0 ==> !is_space(trim_start(s)[0]),
    decreases s.len(),
{
    if s.len() > 0 && is_space(s[0]) {
        lemma_trim_start_first(s.drop_first());
    }
}

/// What `trim_end` leaves is a prefix of its argument.
proof fn lemma_trim_end_prefix(s: Seq<char>)
    ensures
        trim_end(s).len() <= s.len(),
        trim_end(s) == s.take(trim_end(s).len() as int),
    decreases s.len(),
{
    if s.len() > 0 && is_space(s.last()) {
        lemma_trim_end_prefix(s.drop_last());
        let r = trim_end(s.drop_last());
        assert(s.drop_last().take(r.len() as int) =~= s.take(r.len() as int));
    } else {
        assert(s.take(s.len() as int) =~= s);
    }
}

/// An endpoint never starts with `http://` or `https://` when the address
/// it came from, trimmed, did not: appending `/api/agent` cannot complete
/// either prefix.
proof fn lemma_no_scheme_after_append(v: Seq<char>, e: Seq<char>, h: Seq<char>)
    requires
        h == "http://"@ || h == "https://"@,
        !has_prefix(v, h),
        v.len() > 0 ==> v.last() != '/',
        e == v || e == v + "/api/agent"@,
        e == v ==> v.len() >= 10,
    ensures
        !has_prefix(e, h),
{
    reveal_strlit("http://");
    reveal_strlit("https://");
    reveal_strlit("/api/agent");
    if has_prefix(e, h) {
        let n = h.len() as int;
        if v.len() >= n {
            assert(v.take(n) =~= e.take(n));
        } else {
            let k = v.len() as int;
            assert(e == v + "/api/agent"@);
            assert(e[k] == '/');
            assert(e[k + 1] == 'a');
            assert(e.take(n)[k] == h[k]);
            if k + 1 < n {
                assert(e.take(n)[k + 1] == h[k + 1]);
            }
            if k > 0 {
                assert(e.take(n)[k - 1] == h[k - 1]);
                assert(v.last() == e[k - 1]);
            }
        }
    }
}

/// Every endpoint ends with `/api/agent`, and an endpoint is its own
/// endpoint: applying `websocket_endpoint` twice changes nothing.
pub proof fn law_endpoint_is_stable(server: Seq<char>)
    ensures
        has_suffix(endpoint_of(server), "/api/agent"@),
        endpoint_of(endpoint_of(server)) == endpoint_of(server),
{
    reveal_strlit("http://");
    reveal_strlit("https://");
    reveal_strlit("ws://");
    reveal_strlit("wss://");
    reveal_strlit("/api/agent");
    let suffix = "/api/agent"@;
    let t = trim(server);
    lemma_trim_start_first(server);
    lemma_trim_end_prefix(trim_start(server));
    let v = trim_end_char(t, '/');
    lemma_trim_end_char(t, '/');
    let w = if has_prefix(v, "https://"@) {
        "wss://"@ + v.skip("https://"@.len() as int)
    } else if has_prefix(v, "http://"@) {
        "ws://"@ + v.skip("http://"@.len() as int)
    } else {
        v
    };
    let e = endpoint_of(server);
    if !has_suffix(w, suffix) {
        assert((w + suffix).skip((w + suffix).len() - suffix.len()) =~= suffix);
    }
    assert(has_suffix(e, suffix));
    assert(e.last() == e.skip(e.len() - suffix.len())[9]);
    assert(e.last() == 't');
    // The endpoint starts with `w`, or with `/` when `w` is empty.
    if w.len() > 0 {
        assert(e[0] == w[0]);
    } else {
        assert(e =~= suffix);
    }
    if v.len() > 0 {
        assert(v[0] == t[0]);
        assert(t[0] == trim_start(server)[0]);
    }
    assert(!is_space(e[0]));
    assert(!is_space(e.last()));
    assert(trim_start(e) == e);
    assert(trim_end(e) == e);
    assert(trim(e) == e);
    assert(trim_end_char(e, '/') == e);
    if has_prefix(v, "https://"@) || has_prefix(v, "http://"@) {
        assert(e[0] == 'w');
        assert(e.take(7)[0] == e[0]);
        assert(e.take(8)[0] == e[0]);
    } else {
        lemma_no_scheme_after_append(v, e, "http://"@);
        lemma_no_scheme_after_append(v, e, "https://"@);
    }
}

// ---------------------------------------------------------------------------
// Interface counters
// ---------------------------------------------------------------------------

/// Interfaces whose names start with these are not counted: bridges,
/// container and VM links, tunnels and VPNs.
pub open spec fn ignored_prefixes() -> Seq<Seq<char>> {
    seq![
        "br"@,
        "cni"@,
        "docker"@,
        "podman"@,
        "flannel"@,
        "veth"@,
        "virbr"@,
        "vmbr"@,
        "tap"@,
        "tun"@,
        "wg"@,
        "tailscale"@,
        "fwbr"@,
        "fwpr"@,
    ]
}

fn ignored_prefix_list() -> (r: Vec<Vec<char>>)
    ensures
        views(r@) == ignored_prefixes(),
{
    let mut r: Vec<Vec<char>> = Vec::new();
    r.push(chars_of("br"));
    r.push(chars_of("cni"));
    r.push(chars_of("docker"));
    r.push(chars_of("podman"));
    r.push(chars_of("flannel"));
    r.push(chars_of("veth"));
    r.push(chars_of("virbr"));
    r.push(chars_of("vmbr"));
    r.push(chars_of("tap"));
    r.push(chars_of("tun"));
    r.push(chars_of("wg"));
    r.push(chars_of("tailscale"));
    r.push(chars_of("fwbr"));
    r.push(chars_of("fwpr"));
    assert(views(r@) =~= ignored_prefixes());
    r
}

/// Loopback and virtual interfaces are left out.
pub open spec fn ignored_interface(name: Seq<char>) -> bool {
    name == "lo"@ || exists|k: int|
        0 <= k < ignored_prefixes().len() && has_prefix(name, #[trigger] ignored_prefixes()[k])
}

fn is_ignored_interface(name: &Vec<char>) -> (r: bool)
    ensures
        r == ignored_interface(name@),
{
    let lo = chars_of("lo");
    if crate::text::same_chars(name, &lo) {
        return true;
    }
    let prefixes = ignored_prefix_list();
    let mut k: usize = 0;
    while k < prefixes.len()
        invariant
            k <= prefixes.len(),
            views(prefixes@) == ignored_prefixes(),
            forall|j: int| 0 <= j < k ==> !has_prefix(name@, #[trigger] ignored_prefixes()[j]),
        decreases prefixes.len() - k,
    {
        assert(prefixes@[k as int]@ == ignored_prefixes()[k as int]);
        if starts_with(name, &prefixes[k]) {
            return true;
        }
        k = k + 1;
    }
    false
}

/// What one line of `/proc/net/dev` gives.
pub enum NetLine {
    /// No interface on this line, or one that is not counted.
    Skip,
    /// An interface with its received and sent byte counters.
    Interface(Seq<char>, u64, u64),
    Invalid(ProbeError),
}

pub open spec fn net_line(line: Seq<char>) -> NetLine {
    match split_once(line, ':') {
        None => NetLine::Skip,
        Some((raw_name, counters)) => {
            let name = trim(raw_name);
            if ignored_interface(name) {
                NetLine::Skip
            } else {
                let fields = words(counters);
                if fields.len() < 9 {
                    NetLine::Invalid(ProbeError::NetworkFormat)
                } else {
                    match (
                        parse_unsigned(fields[0], u64::MAX as nat),
                        parse_unsigned(fields[8], u64::MAX as nat),
                    ) {
                        (Some(rx), Some(tx)) => NetLine::Interface(name, rx as u64, tx as u64),
                        _ => NetLine::Invalid(ProbeError::NetworkNumber),
                    }
                }
            }
        },
    }
}

/// The interfaces of the given lines, in order, or the first error.
pub open spec fn net_lines(ls: Seq<Seq<char>>) -> Result<Seq<(Seq<char>, u64, u64)>, ProbeError>
    decreases ls.len(),
{
    if ls.len() == 0 {
        Ok(seq![])
    } else {
        match net_lines(ls.drop_last()) {
            Err(e) => Err(e),
            Ok(acc) => match net_line(ls.last()) {
                NetLine::Skip => Ok(acc),
                NetLine::Invalid(e) => Err(e),
                NetLine::Interface(name, rx, tx) => Ok(acc.push((name, rx, tx))),
            },
        }
    }
}

/// The lines after the two header lines, as `Iterator::skip(2)` gives them.
pub open spec fn after_header(ls: Seq<Seq<char>>) -> Seq<Seq<char>> {
    if ls.len() >= 2 {
        ls.skip(2)
    } else {
        seq![]
    }
}

/// A failed line fails every longer run of lines.
proof fn lemma_net_lines_error(ls: Seq<Seq<char>>, k: int)
    requires
        0 <= k <= ls.len(),
        net_lines(ls.take(k)) is Err,
    ensures
        net_lines(ls) == net_lines(ls.take(k)),
    decreases ls.len() - k,
{
    if k < ls.len() {
        assert(ls.take(k + 1).drop_last() =~= ls.take(k));
        lemma_net_lines_error(ls, k + 1);
    } else {
        assert(ls.take(k) =~= ls);
    }
}

/// The counted interfaces of `/proc/net/dev` after its two header lines;
/// at most 64 are accepted.
pub open spec fn network_of(text: Seq<char>) -> Result<Seq<(Seq<char>, u64, u64)>, ProbeError> {
    match net_lines(after_header(lines(text))) {
        Err(e) => Err(e),
        Ok(cs) => if cs.len() > 64 {
            Err(ProbeError::TooManyInterfaces)
        } else {
            Ok(cs)
        },
    }
}

/// The interface that a line of `/proc/net/dev` counts, if it counts one.
pub open spec fn interface_entry(line: Seq<char>) -> Option<(Seq<char>, u64, u64)> {
    match net_line(line) {
        NetLine::Interface(name, rx, tx) => Some((name, rx, tx)),
        _ => None,
    }
}

/// The interfaces that the lines count, in the order of the lines.
pub open spec fn counted_interfaces(ls: Seq<Seq<char>>) -> Seq<(Seq<char>, u64, u64)> {
    ls.filter_map(|line: Seq<char>| interface_entry(line))
}

/// Some line lists a counted interface with too few fields or a counter
/// that is not a `u64`.
pub open spec fn has_invalid_line(ls: Seq<Seq<char>>) -> bool {
    exists|i: int| 0 <= i < ls.len() && #[trigger] net_line(ls[i]) is Invalid
}

/// A line without `:`, or whose interface is loopback or virtual.
pub open spec fn left_out_line(line: Seq<char>) -> bool {
    match split_once(line, ':') {
        None => true,
        Some((name, _)) => ignored_interface(trim(name)),
    }
}

/// `net_lines` fails exactly on an invalid line, and otherwise lists the
/// counted interfaces in order.
proof fn lemma_net_lines_closed(ls: Seq<Seq<char>>)
    ensures
        net_lines(ls) is Err <==> has_invalid_line(ls),
        !has_invalid_line(ls) ==> net_lines(ls) == Ok::<Seq<(Seq<char>, u64, u64)>, ProbeError>(
            counted_interfaces(ls),
        ),
    decreases ls.len(),
{
    if ls.len() > 0 {
        let d = ls.drop_last();
        let n = ls.len() - 1;
        lemma_net_lines_closed(d);
        assert(ls[n] == ls.last());
        if has_invalid_line(d) {
            let i = choose|i: int| 0 <= i < d.len() && #[trigger] net_line(d[i]) is Invalid;
            assert(ls[i] == d[i]);
        }
        if net_line(ls.last()) is Invalid {
            assert(net_line(ls[n]) is Invalid);
        }
        if has_invalid_line(ls) {
            let i = choose|i: int| 0 <= i < ls.len() && #[trigger] net_line(ls[i]) is Invalid;
            if i < n {
                assert(d[i] == ls[i]);
                assert(has_invalid_line(d));
            }
        }
        match net_line(ls.last()) {
            NetLine::Interface(name, rx, tx) => {
                assert(counted_interfaces(d).push((name, rx, tx)) =~= counted_interfaces(d) + seq![
                    (name, rx, tx),
                ]);
            },
            _ => {},
        }
    }
}

/// What the parser of `/proc/net/dev` returns, line by line: after the two
/// header lines, each line with a `:` and a name that is neither `lo` nor
/// virtual counts one interface, in order; lines without `:` and left-out
/// interfaces never cause an error. Parsing fails exactly when a counted
/// line has too few fields or a counter that is not a `u64`, or when more
/// than 64 interfaces are counted; otherwise the result lists them all.
pub proof fn law_network_structure(text: Seq<char>)
    ensures
        network_of(text) is Err <==> has_invalid_line(after_header(lines(text)))
            || counted_interfaces(after_header(lines(text))).len() > 64,
        network_of(text) matches Ok(cs) ==> cs == counted_interfaces(after_header(lines(text)))
            && cs.len() <= 64,
        forall|line: Seq<char>| left_out_line(line) ==> #[trigger] net_line(line) is Skip,
{
    lemma_net_lines_closed(after_header(lines(text)));
}

/// Every interface that the lines count comes from one of the lines.
proof fn lemma_counted_from_lines(ls: Seq<Seq<char>>)
    ensures
        forall|i: int|
            0 <= i < counted_interfaces(ls).len() ==> exists|j: int|
                0 <= j < ls.len() && interface_entry(ls[j]) == Some(
                    #[trigger] counted_interfaces(ls)[i],
                ),
    decreases ls.len(),
{
    if ls.len() > 0 {
        let d = ls.drop_last();
        let n = ls.len() - 1;
        lemma_counted_from_lines(d);
        let c = counted_interfaces(ls);
        let cd = counted_interfaces(d);
        assert forall|i: int| 0 <= i < c.len() implies exists|j: int|
            0 <= j < ls.len() && interface_entry(ls[j]) == Some(#[trigger] c[i]) by {
            match interface_entry(ls.last()) {
                Some(e) => {
                    assert(c == cd + seq![e]);
                    if i < cd.len() {
                        assert(c[i] == cd[i]);
                        let j = choose|j: int| 0 <= j < d.len() && interface_entry(d[j]) == Some(cd[i]);
                        assert(ls[j] == d[j]);
                    } else {
                        assert(c[i] == e);
                        assert(ls[n] == ls.last());
                    }
                },
                None => {
                    assert(c == cd);
                    let j = choose|j: int| 0 <= j < d.len() && interface_entry(d[j]) == Some(cd[i]);
                    assert(ls[j] == d[j]);
                },
            }
        }
    }
}

/// The interfaces left out by name: `lo`, and names starting with `br`,
/// `cni`, `docker`, `podman`, `flannel`, `veth`, `virbr`, `vmbr`, `tap`,
/// `tun`, `wg`, `tailscale`, `fwbr` or `fwpr`.
proof fn lemma_ignored_names(n: Seq<char>)
    ensures
        ignored_interface(n) <==> (n == "lo"@ ||
            has_prefix(n, "br"@) ||
            has_prefix(n, "cni"@) ||
            has_prefix(n, "docker"@) ||
            has_prefix(n, "podman"@) ||
            has_prefix(n, "flannel"@) ||
            has_prefix(n, "veth"@) ||
            has_prefix(n, "virbr"@) ||
            has_prefix(n, "vmbr"@) ||
            has_prefix(n, "tap"@) ||
            has_prefix(n, "tun"@) ||
            has_prefix(n, "wg"@) ||
            has_prefix(n, "tailscale"@) ||
            has_prefix(n, "fwbr"@) ||
            has_prefix(n, "fwpr"@)),
{
    let ps = ignored_prefixes();
    assert(ps[0] == "br"@);
    assert(ps[1] == "cni"@);
    assert(ps[2] == "docker"@);
    assert(ps[3] == "podman"@);
    assert(ps[4] == "flannel"@);
    assert(ps[5] == "veth"@);
    assert(ps[6] == "virbr"@);
    assert(ps[7] == "vmbr"@);
    assert(ps[8] == "tap"@);
    assert(ps[9] == "tun"@);
    assert(ps[10] == "wg"@);
    assert(ps[11] == "tailscale"@);
    assert(ps[12] == "fwbr"@);
    assert(ps[13] == "fwpr"@);
    if ignored_interface(n) && n != "lo"@ {
        let k = choose|k: int| 0 <= k < ps.len() && has_prefix(n, #[trigger] ps[k]);
        assert(has_prefix(n, ps[k]));
    }
}

/// Loopback and virtual links are never counted: no interface that
/// `parse_network` returns is `lo` or has a name starting with `br`, `cni`,
/// `docker`, `podman`, `flannel`, `veth`, `virbr`, `vmbr`, `tap`, `tun`, `wg`,
/// `tailscale`, `fwbr` or `fwpr`, and a line naming such an interface is
/// skipped whatever follows its `:`.
pub proof fn law_virtual_links_left_out(text: Seq<char>, line: Seq<char>)
    ensures
        network_of(text) matches Ok(cs) ==> forall|i: int|
            #![trigger cs[i]]
            0 <= i < cs.len() ==> !(cs[i].0 == "lo"@ ||
                has_prefix(cs[i].0, "br"@) ||
                has_prefix(cs[i].0, "cni"@) ||
                has_prefix(cs[i].0, "docker"@) ||
                has_prefix(cs[i].0, "podman"@) ||
                has_prefix(cs[i].0, "flannel"@) ||
                has_prefix(cs[i].0, "veth"@) ||
                has_prefix(cs[i].0, "virbr"@) ||
                has_prefix(cs[i].0, "vmbr"@) ||
                has_prefix(cs[i].0, "tap"@) ||
                has_prefix(cs[i].0, "tun"@) ||
                has_prefix(cs[i].0, "wg"@) ||
                has_prefix(cs[i].0, "tailscale"@) ||
                has_prefix(cs[i].0, "fwbr"@) ||
                has_prefix(cs[i].0, "fwpr"@)),
        split_once(line, ':') matches Some((name, _)) && (trim(name) == "lo"@ ||
            has_prefix(trim(name), "br"@) ||
            has_prefix(trim(name), "cni"@) ||
            has_prefix(trim(name), "docker"@) ||
            has_prefix(trim(name), "podman"@) ||
            has_prefix(trim(name), "flannel"@) ||
            has_prefix(trim(name), "veth"@) ||
            has_prefix(trim(name), "virbr"@) ||
            has_prefix(trim(name), "vmbr"@) ||
            has_prefix(trim(name), "tap"@) ||
            has_prefix(trim(name), "tun"@) ||
            has_prefix(trim(name), "wg"@) ||
            has_prefix(trim(name), "tailscale"@) ||
            has_prefix(trim(name), "fwbr"@) ||
            has_prefix(trim(name), "fwpr"@)) ==> net_line(line) is Skip,
{
    let ls = after_header(lines(text));
    lemma_net_lines_closed(ls);
    lemma_counted_from_lines(ls);
    match split_once(line, ':') {
        Some((name, _)) => {
            lemma_ignored_names(trim(name));
        },
        None => {},
    }
    if network_of(text) is Ok {
        let cs = counted_interfaces(ls);
        assert forall|i: int| 0 <= i < cs.len() implies !ignored_interface(cs[i].0) by {
            let j = choose|j: int| 0 <= j < ls.len() && interface_entry(ls[j]) == Some(cs[i]);
            match net_line(ls[j]) {
                NetLine::Interface(nm, rx, tx) => {},
                _ => {},
            }
        }
        assert forall|i: int| 0 <= i < cs.len() implies !(cs[i].0 == "lo"@ ||
                has_prefix(cs[i].0, "br"@) ||
                has_prefix(cs[i].0, "cni"@) ||
                has_prefix(cs[i].0, "docker"@) ||
                has_prefix(cs[i].0, "podman"@) ||
                has_prefix(cs[i].0, "flannel"@) ||
                has_prefix(cs[i].0, "veth"@) ||
                has_prefix(cs[i].0, "virbr"@) ||
                has_prefix(cs[i].0, "vmbr"@) ||
                has_prefix(cs[i].0, "tap"@) ||
                has_prefix(cs[i].0, "tun"@) ||
                has_prefix(cs[i].0, "wg"@) ||
                has_prefix(cs[i].0, "tailscale"@) ||
                has_prefix(cs[i].0, "fwbr"@) ||
                has_prefix(cs[i].0, "fwpr"@)) by {
            assert(!ignored_interface(cs[i].0));
            lemma_ignored_names(cs[i].0);
        }
    }
}

/// Whether `r` lists the interfaces `cs`, each with index 0.
pub open spec fn counters_are(r: Seq<NetworkCounter>, cs: Seq<(Seq<char>, u64, u64)>) -> bool {
    &&& r.len() == cs.len()
    &&& forall|i: int|
        0 <= i < r.len() ==> {
            &&& (#[trigger] r[i]).name@ == cs[i].0
            &&& r[i].index == 0
            &&& r[i].rx == cs[i].1
            &&& r[i].tx == cs[i].2
        }
}

pub fn parse_network(text: &str) -> (r: Result<Vec<NetworkCounter>, ProbeError>)
    ensures
        match network_of(text@) {
            Ok(cs) => r matches Ok(v) && counters_are(v@, cs),
            Err(e) => r == Err::<Vec<NetworkCounter>, ProbeError>(e),
        },
{
    let all = chars_of(text);
    let ls = split_lines(&all);
    let ghost body = after_header(lines(text@));
    let mut result: Vec<NetworkCounter> = Vec::new();
    let mut i: usize = 2;
    if ls.len() < 2 {
        proof {
            assert(body =~= Seq::<Seq<char>>::empty());
        }
        return Ok(result);
    }
    proof {
        assert(body.take(0) =~= Seq::<Seq<char>>::empty());
    }
    while i < ls.len()
        invariant
            2 <= i <= ls.len(),
            views(ls@) == lines(text@),
            body == after_header(lines(text@)),
            ls@.len() >= 2,
            body == views(ls@).skip(2),
            net_lines(body.take(i - 2)) matches Ok(cs) && counters_are(result@, cs),
        decreases ls.len() - i,
    {
        let line = &ls[i];
        proof {
            assert(body.take(i - 1).drop_last() =~= body.take(i - 2));
            assert(body.take(i - 1).last() == line@);
        }
        let ghost prev = net_lines(body.take(i - 2))->Ok_0;
        match split_once_at(line, ':') {
            None => {},
            Some((raw_name, counters)) => {
                let name = trimmed(&raw_name);
                if !is_ignored_interface(&name) {
                    let fields = split_words(&counters);
                    if fields.len() < 9 {
                        proof {
                            assert(net_lines(body.take(i - 1)) is Err);
                            lemma_net_lines_error(body, i - 1);
                        }
                        return Err(ProbeError::NetworkFormat);
                    }
                    assert(fields@[0]@ == words(counters@)[0]);
                    assert(fields@[8]@ == words(counters@)[8]);
                    let rx = match parse_u64(&fields[0]) {
                        Some(n) => n,
                        None => {
                            proof {
                                assert(net_lines(body.take(i - 1)) is Err);
                                lemma_net_lines_error(body, i - 1);
                            }
                            return Err(ProbeError::NetworkNumber);
                        },
                    };
                    let tx = match parse_u64(&fields[8]) {
                        Some(n) => n,
                        None => {
                            proof {
                                assert(net_lines(body.take(i - 1)) is Err);
                                lemma_net_lines_error(body, i - 1);
                            }
                            return Err(ProbeError::NetworkNumber);
                        },
                    };
                    let counter = NetworkCounter { name: string_of(&name), index: 0, rx, tx };
                    result.push(counter);
                    proof {
                        let cs = prev.push((name@, rx, tx));
                        assert(net_lines(body.take(i - 1)) == Ok::<
                            Seq<(Seq<char>, u64, u64)>,
                            ProbeError,
                        >(cs));
                        assert forall|j: int| 0 <= j < result@.len() implies {
                            &&& (#[trigger] result@[j]).name@ == cs[j].0
                            &&& result@[j].index == 0
                            &&& result@[j].rx == cs[j].1
                            &&& result@[j].tx == cs[j].2
                        } by {
                            if j < result@.len() - 1 {
                                assert(result@[j] == old_result_at(result@, j));
                            }
                        }
                    }
                }
            },
        }
        i = i + 1;
    }
    proof {
        assert(body.take(i - 2) =~= body);
    }
    if result.len() > 64 {
        return Err(ProbeError::TooManyInterfaces);
    }
    Ok(result)
}

spec fn old_result_at(r: Seq<NetworkCounter>, j: int) -> NetworkCounter {
    r[j]
}

// ---------------------------------------------------------------------------
// Line searches shared by the parsers below
// ---------------------------------------------------------------------------

/// The first line of `ls` that starts with `p`.
pub open spec fn first_with_prefix(ls: Seq<Seq<char>>, p: Seq<char>) -> Option<Seq<char>>
    decreases ls.len(),
{
    if ls.len() == 0 {
        None
    } else if has_prefix(ls[0], p) {
        Some(ls[0])
    } else {
        first_with_prefix(ls.drop_first(), p)
    }
}

/// Position in `ls` of the first line that starts with `p`, if any.
fn find_line_with_prefix(ls: &Vec<Vec<char>>, p: &Vec<char>) -> (r: Option<usize>)
    ensures
        match r {
            Some(i) => i < ls.len() && first_with_prefix(views(ls@), p@) == Some(ls@[i as int]@)
                && has_prefix(ls@[i as int]@, p@),
            None => first_with_prefix(views(ls@), p@) is None,
        },
{
    let mut i: usize = 0;
    proof {
        assert(views(ls@).skip(0) =~= views(ls@));
    }
    while i < ls.len()
        invariant
            i <= ls.len(),
            first_with_prefix(views(ls@), p@) == first_with_prefix(views(ls@).skip(i as int), p@),
        decreases ls.len() - i,
    {
        proof {
            assert(views(ls@).skip(i as int)[0] == ls@[i as int]@);
            assert(views(ls@).skip(i as int).drop_first() =~= views(ls@).skip(i + 1));
        }
        if starts_with(&ls[i], p) {
            return Some(i);
        }
        i = i + 1;
    }
    None
}

/// How many lines of `ls` start with `p`.
pub open spec fn count_with_prefix(ls: Seq<Seq<char>>, p: Seq<char>) -> nat
    decreases ls.len(),
{
    if ls.len() == 0 {
        0
    } else {
        (if has_prefix(ls[0], p) {
            1nat
        } else {
            0nat
        }) + count_with_prefix(ls.drop_first(), p)
    }
}

fn count_lines_with_prefix(ls: &Vec<Vec<char>>, p: &Vec<char>) -> (r: usize)
    ensures
        r == count_with_prefix(views(ls@), p@),
{
    let mut i: usize = 0;
    let mut n: usize = 0;
    proof {
        assert(views(ls@).skip(0) =~= views(ls@));
    }
    while i < ls.len()
        invariant
            i <= ls.len(),
            n <= i,
            count_with_prefix(views(ls@), p@) == n + count_with_prefix(
                views(ls@).skip(i as int),
                p@,
            ),
        decreases ls.len() - i,
    {
        proof {
            assert(views(ls@).skip(i as int)[0] == ls@[i as int]@);
            assert(views(ls@).skip(i as int).drop_first() =~= views(ls@).skip(i + 1));
        }
        if starts_with(&ls[i], p) {
            n = n + 1;
        }
        i = i + 1;
    }
    proof {
        assert(views(ls@).skip(i as int) =~= Seq::<Seq<char>>::empty());
    }
    n
}

// ---------------------------------------------------------------------------
// CPU model and cores
// ---------------------------------------------------------------------------

pub open spec fn cpu_name_key(k: Seq<char>) -> bool {
    k == "model name"@ || k == "Hardware"@ || k == "Processor"@
}

/// The trimmed value of the first `model name`, `Hardware` or `Processor` line.
pub open spec fn cpu_name_in(ls: Seq<Seq<char>>) -> Option<Seq<char>>
    decreases ls.len(),
{
    if ls.len() == 0 {
        None
    } else {
        match split_once(ls[0], ':') {
            Some((k, v)) => if cpu_name_key(trim(k)) {
                Some(trim(v))
            } else {
                cpu_name_in(ls.drop_first())
            },
            None => cpu_name_in(ls.drop_first()),
        }
    }
}

pub open spec fn cpu_name_of(text: Seq<char>) -> Seq<char> {
    match cpu_name_in(lines(text)) {
        Some(name) => name,
        None => "Unknown CPU"@,
    }
}

/// One core per line starting with `processor`, and at least one.
pub open spec fn cpu_cores_of(text: Seq<char>) -> u32 {
    let n = count_with_prefix(lines(text), "processor"@);
    (if n < 1 {
        1
    } else {
        n
    }) as u32
}

/// Counting lines that start with `p` counts the lines that the filter on
/// that prefix keeps.
proof fn lemma_count_is_filter(ls: Seq<Seq<char>>, p: Seq<char>)
    ensures
        count_with_prefix(ls, p) == ls.filter(|l: Seq<char>| has_prefix(l, p)).len(),
    decreases ls.len(),
{
    if ls.len() > 0 {
        let f = |l: Seq<char>| has_prefix(l, p);
        lemma_count_is_filter(ls.drop_first(), p);
        assert(ls =~= seq![ls[0]] + ls.drop_first());
        ls.drop_first().lemma_filter_prepend(ls[0], f);
    }
}

/// The core count is the number of lines of `/proc/cpuinfo` that start with
/// `processor`, and at least one, whatever other keys the file holds (arm64
/// kernels, for one, write no `model name` lines).
pub proof fn law_cores_are_processor_lines(text: Seq<char>)
    ensures
        lines(text).filter(|l: Seq<char>| has_prefix(l, "processor"@)).len() <= u32::MAX
            ==> cpu_cores_of(text) == if lines(text).filter(
            |l: Seq<char>| has_prefix(l, "processor"@),
        ).len() == 0 {
            1
        } else {
            lines(text).filter(|l: Seq<char>| has_prefix(l, "processor"@)).len()
        },
        cpu_cores_of(text) >= 1 || lines(text).filter(|l: Seq<char>| has_prefix(l, "processor"@)).len()
            > u32::MAX,
{
    lemma_count_is_filter(lines(text), "processor"@);
}

fn find_cpu_name(ls: &Vec<Vec<char>>) -> (r: Option<Vec<char>>)
    ensures
        match r {
            Some(v) => cpu_name_in(views(ls@)) == Some(v@),
            None => cpu_name_in(views(ls@)) is None,
        },
{
    let model = chars_of("model name");
    let hardware = chars_of("Hardware");
    let processor = chars_of("Processor");
    let mut i: usize = 0;
    proof {
        assert(views(ls@).skip(0) =~= views(ls@));
    }
    while i < ls.len()
        invariant
            i <= ls.len(),
            model@ == "model name"@,
            hardware@ == "Hardware"@,
            processor@ == "Processor"@,
            cpu_name_in(views(ls@)) == cpu_name_in(views(ls@).skip(i as int)),
        decreases ls.len() - i,
    {
        proof {
            assert(views(ls@).skip(i as int)[0] == ls@[i as int]@);
            assert(views(ls@).skip(i as int).drop_first() =~= views(ls@).skip(i + 1));
        }
        match split_once_at(&ls[i], ':') {
            Some((k, v)) => {
                let key = trimmed(&k);
                if crate::text::same_chars(&key, &model) || crate::text::same_chars(&key, &hardware)
                    || crate::text::same_chars(&key, &processor) {
                    return Some(trimmed(&v));
                }
            },
            None => {},
        }
        i = i + 1;
    }
    proof {
        assert(views(ls@).skip(i as int) =~= Seq::<Seq<char>>::empty());
    }
    None
}

/// The CPU model and the number of cores from `/proc/cpuinfo`.
pub fn parse_cpu_info(text: &str) -> (r: (String, u32))
    ensures
        r.0@ == cpu_name_of(text@),
        r.1 == cpu_cores_of(text@),
{
    let all = chars_of(text);
    let ls = split_lines(&all);
    let cpu_name = match find_cpu_name(&ls) {
        Some(v) => string_of(&v),
        None => "Unknown CPU".to_owned(),
    };
    let processor_prefix = chars_of("processor");
    let n = count_lines_with_prefix(&ls, &processor_prefix);
    let cores = if n < 1 {
        1
    } else {
        n
    };
    (cpu_name, #[verifier::truncate] (cores as u32))
}

// ---------------------------------------------------------------------------
// Memory
// ---------------------------------------------------------------------------

/// The kibibytes of the first `/proc/meminfo` line starting with `key`: its
/// second word as a `u64`, or zero.
pub open spec fn meminfo_kib(text: Seq<char>, key: Seq<char>) -> nat {
    meminfo_kib_in(lines(text), key)
}

pub open spec fn meminfo_kib_in(ls: Seq<Seq<char>>, key: Seq<char>) -> nat {
    match first_with_prefix(ls, key) {
        None => 0,
        Some(line) => {
            let w = words(line);
            if w.len() < 2 {
                0
            } else {
                match parse_unsigned(w[1], u64::MAX as nat) {
                    Some(n) => n,
                    None => 0,
                }
            }
        },
    }
}

/// Whether every figure read from `/proc/meminfo` fits in a `u64` once
/// turned into bytes.
pub open spec fn meminfo_fits(text: Seq<char>) -> bool {
    &&& meminfo_kib(text, "MemTotal:"@) * 1024 <= u64::MAX
    &&& meminfo_kib(text, "MemAvailable:"@) * 1024 <= u64::MAX
    &&& meminfo_kib(text, "SwapTotal:"@) * 1024 <= u64::MAX
    &&& meminfo_kib(text, "SwapFree:"@) * 1024 <= u64::MAX
}

/// Memory and swap in bytes.
#[derive(Debug, Clone, Copy, Default, PartialEq, Eq)]
pub struct Memory {
    pub mem_total: u64,
    pub mem_used: u64,
    pub swap_total: u64,
    pub swap_used: u64,
}

pub open spec fn sat_sub(a: nat, b: nat) -> nat {
    if a >= b {
        (a - b) as nat
    } else {
        0
    }
}

fn meminfo_value(ls: &Vec<Vec<char>>, key: &str) -> (r: u64)
    ensures
        r == meminfo_kib_in(views(ls@), key@),
{
    let k = chars_of(key);
    match find_line_with_prefix(ls, &k) {
        None => 0,
        Some(i) => {
            let w = split_words(&ls[i]);
            if w.len() < 2 {
                0
            } else {
                assert(w@[1]@ == words(ls@[i as int]@)[1]);
                match parse_u64(&w[1]) {
                    Some(n) => n,
                    None => 0,
                }
            }
        },
    }
}

/// Whether the figures of `/proc/meminfo` fit in bytes.
pub fn meminfo_in_range(text: &str) -> (r: bool)
    ensures
        r == meminfo_fits(text@),
{
    let all = chars_of(text);
    let ls = split_lines(&all);
    let limit: u64 = u64::MAX / 1024;
    meminfo_value(&ls, "MemTotal:") <= limit && meminfo_value(&ls, "MemAvailable:") <= limit
        && meminfo_value(&ls, "SwapTotal:") <= limit && meminfo_value(&ls, "SwapFree:") <= limit
}

/// Memory in use (total less available) and swap in use (total less free),
/// from `/proc/meminfo`.
pub fn parse_meminfo(text: &str) -> (r: Memory)
    requires
        meminfo_fits(text@),
    ensures
        r.mem_total == meminfo_kib(text@, "MemTotal:"@) * 1024,
        r.mem_used == sat_sub(
            meminfo_kib(text@, "MemTotal:"@) * 1024,
            meminfo_kib(text@, "MemAvailable:"@) * 1024,
        ),
        r.swap_total == meminfo_kib(text@, "SwapTotal:"@) * 1024,
        r.swap_used == sat_sub(
            meminfo_kib(text@, "SwapTotal:"@) * 1024,
            meminfo_kib(text@, "SwapFree:"@) * 1024,
        ),
{
    let all = chars_of(text);
    let ls = split_lines(&all);
    let total = meminfo_value(&ls, "MemTotal:") * 1024;
    let available = meminfo_value(&ls, "MemAvailable:") * 1024;
    let swap_total = meminfo_value(&ls, "SwapTotal:") * 1024;
    let swap_free = meminfo_value(&ls, "SwapFree:") * 1024;
    Memory {
        mem_total: total,
        mem_used: total.saturating_sub(available),
        swap_total,
        swap_used: swap_total.saturating_sub(swap_free),
    }
}

// ---------------------------------------------------------------------------
// CPU times
// ---------------------------------------------------------------------------

/// The first line of `text`, or nothing.
pub open spec fn first_line(text: Seq<char>) -> Seq<char> {
    let ls = lines(text);
    if ls.len() > 0 {
        ls[0]
    } else {
        seq![]
    }
}

/// The words of `ws` that read as `u64`, in order.
pub open spec fn numbers_of(ws: Seq<Seq<char>>) -> Seq<u64>
    decreases ws.len(),
{
    if ws.len() == 0 {
        seq![]
    } else {
        let rest = numbers_of(ws.drop_last());
        match parse_unsigned(ws.last(), u64::MAX as nat) {
            Some(n) => rest.push(n as u64),
            None => rest,
        }
    }
}

/// The numbers after the first word of the first line of `/proc/stat`.
pub open spec fn stat_numbers(text: Seq<char>) -> Seq<u64> {
    let w = words(first_line(text));
    if w.len() >= 1 {
        numbers_of(w.skip(1))
    } else {
        seq![]
    }
}

pub open spec fn seq_sum(v: Seq<u64>) -> nat
    decreases v.len(),
{
    if v.len() == 0 {
        0
    } else {
        seq_sum(v.drop_last()) + v.last() as nat
    }
}

/// Total time is the sum of the first eight fields (guest time is already in
/// user and nice); idle time is idle plus iowait.
pub open spec fn total_of(v: Seq<u64>) -> nat {
    seq_sum(v.take(if v.len() < 8 {
        v.len() as int
    } else {
        8
    }))
}

pub open spec fn idle_of(v: Seq<u64>) -> nat {
    v[3] as nat + (if v.len() > 4 {
        v[4] as nat
    } else {
        0
    })
}

/// Whether the total and idle times of `/proc/stat` fit in a `u64`.
pub open spec fn cpu_stat_fits(text: Seq<char>) -> bool {
    let v = stat_numbers(text);
    v.len() < 4 || (total_of(v) <= u64::MAX && idle_of(v) <= u64::MAX)
}

fn stat_numbers_of(text: &str) -> (r: Vec<u64>)
    ensures
        r@ == stat_numbers(text@),
{
    let all = chars_of(text);
    let ls = split_lines(&all);
    let mut r: Vec<u64> = Vec::new();
    if ls.len() == 0 {
        return r;
    }
    let w = split_words(&ls[0]);
    if w.len() < 1 {
        return r;
    }
    let ghost ws = words(first_line(text@)).skip(1);
    let mut i: usize = 1;
    proof {
        assert(ws.take(0) =~= Seq::<Seq<char>>::empty());
    }
    while i < w.len()
        invariant
            1 <= i <= w.len(),
            views(w@) == words(first_line(text@)),
            ws == views(w@).skip(1),
            r@ == numbers_of(ws.take(i - 1)),
        decreases w.len() - i,
    {
        proof {
            assert(ws.take(i as int).drop_last() =~= ws.take(i - 1));
            assert(ws.take(i as int).last() == w@[i as int]@);
        }
        match parse_u64(&w[i]) {
            Some(n) => r.push(n),
            None => {},
        }
        i = i + 1;
    }
    proof {
        assert(ws.take(i - 1) =~= ws);
    }
    r
}

/// Whether the CPU times of `/proc/stat` fit in a `u64`.
pub fn cpu_stat_in_range(text: &str) -> (r: bool)
    ensures
        r == cpu_stat_fits(text@),
{
    let v = stat_numbers_of(text);
    if v.len() < 4 {
        return true;
    }
    let idle_fits = match v[3].checked_add(if v.len() > 4 { v[4] } else { 0 }) {
        Some(_) => true,
        None => false,
    };
    idle_fits && sum_first(&v).is_some()
}

/// The sum of the first eight values (fewer if there are fewer), unless it overflows.
fn sum_first(v: &Vec<u64>) -> (r: Option<u64>)
    ensures
        match r {
            Some(s) => s == total_of(v@),
            None => total_of(v@) > u64::MAX,
        },
{
    let n: usize = if v.len() < 8 {
        v.len()
    } else {
        8
    };
    let ghost t = v@.take(n as int);
    let mut sum: u64 = 0;
    let mut i: usize = 0;
    proof {
        assert(t.take(0) =~= Seq::<u64>::empty());
    }
    while i < n
        invariant
            i <= n <= v.len(),
            n == (if v@.len() < 8 {
                v@.len() as int
            } else {
                8
            }),
            t == v@.take(n as int),
            sum == seq_sum(t.take(i as int)),
        decreases n - i,
    {
        proof {
            assert(t.take(i + 1).drop_last() =~= t.take(i as int));
        }
        match sum.checked_add(v[i]) {
            Some(s) => sum = s,
            None => {
                proof {
                    assert(t.take(i + 1).last() == v@[i as int]);
                    assert(seq_sum(t.take(i + 1)) == sum + v@[i as int]);
                    lemma_sum_prefix_le(t, i + 1);
                    assert(total_of(v@) == seq_sum(t));
                }
                return None;
            },
        }
        i = i + 1;
    }
    proof {
        assert(t.take(i as int) =~= t);
    }
    Some(sum)
}

proof fn lemma_sum_prefix_le(v: Seq<u64>, k: int)
    requires
        0 <= k <= v.len(),
    ensures
        seq_sum(v.take(k)) <= seq_sum(v),
    decreases v.len() - k,
{
    if k < v.len() {
        lemma_sum_prefix_le(v, k + 1);
        assert(v.take(k + 1).drop_last() =~= v.take(k));
    } else {
        assert(v.take(k) =~= v);
    }
}

/// Total and idle CPU time from the first line of `/proc/stat`; fewer than
/// four numbers is a format error.
pub fn parse_cpu_stat(text: &str) -> (r: Result<(u64, u64), ProbeError>)
    requires
        cpu_stat_fits(text@),
    ensures
        ({
            let v = stat_numbers(text@);
            if v.len() < 4 {
                r == Err::<(u64, u64), ProbeError>(ProbeError::CpuFormat)
            } else {
                r matches Ok((total, idle)) && total == total_of(v) && idle == idle_of(v)
            }
        }),
{
    let v = stat_numbers_of(text);
    if v.len() < 4 {
        return Err(ProbeError::CpuFormat);
    }
    let total = match sum_first(&v) {
        Some(s) => s,
        None => 0,
    };
    let idle = v[3] + if v.len() > 4 {
        v[4]
    } else {
        0
    };
    Ok((total, idle))
}

// ---------------------------------------------------------------------------
// OS name and virtualization
// ---------------------------------------------------------------------------

pub open spec fn trim_start_char(s: Seq<char>, c: char) -> Seq<char>
    decreases s.len(),
{
    if s.len() > 0 && s[0] == c {
        trim_start_char(s.drop_first(), c)
    } else {
        s
    }
}

/// The `PRETTY_NAME=` value of `/etc/os-release` without surrounding quotes,
/// or `Linux`.
pub open spec fn os_name_of(text: Seq<char>) -> Seq<char> {
    match first_with_prefix(lines(text), "PRETTY_NAME="@) {
        Some(line) => trim_end_char(
            trim_start_char(line.skip("PRETTY_NAME="@.len() as int), '"'),
            '"',
        ),
        None => "Linux"@,
    }
}

pub fn parse_os_name(text: &str) -> (r: String)
    ensures
        r@ == os_name_of(text@),
{
    let all = chars_of(text);
    let ls = split_lines(&all);
    let key = chars_of("PRETTY_NAME=");
    match find_line_with_prefix(&ls, &key) {
        None => "Linux".to_owned(),
        Some(i) => {
            let line = &ls[i];
            let mut a = key.len();
            proof {
                assert(line@.skip(key@.len() as int) =~= line@.subrange(a as int, line@.len() as int));
            }
            while a < line.len() && line[a] == '"'
                invariant
                    key.len() <= a <= line.len(),
                    trim_start_char(line@.skip(key@.len() as int), '"') == trim_start_char(
                        line@.subrange(a as int, line@.len() as int),
                        '"',
                    ),
                decreases line.len() - a,
            {
                proof {
                    assert(line@.subrange(a as int, line@.len() as int).drop_first()
                        =~= line@.subrange(a + 1, line@.len() as int));
                }
                a = a + 1;
            }
            let ghost u = line@.subrange(a as int, line@.len() as int);
            proof {
                assert(trim_start_char(u, '"') == u);
            }
            let mut b = line.len();
            proof {
                assert(u.take(u.len() as int) =~= u);
            }
            while b > a && line[b - 1] == '"'
                invariant
                    a <= b <= line.len(),
                    u == line@.subrange(a as int, line@.len() as int),
                    trim_end_char(u, '"') == trim_end_char(u.take(b - a), '"'),
                decreases b,
            {
                proof {
                    assert(u.take(b - a).drop_last() =~= u.take(b - a - 1));
                }
                b = b - 1;
            }
            proof {
                assert(trim_end_char(u.take(b - a), '"') == u.take(b - a));
                assert(u.take(b - a) =~= line@.subrange(a as int, b as int));
            }
            string_of(&slice_chars(line, a, b))
        },
    }
}

/// The kind of machine the agent runs in, checked in this order: a Docker
/// marker file; a container runtime named in PID 1's control groups; a
/// hypervisor named in the DMI product name; Xen; a `hypervisor` CPU flag.
pub open spec fn virtualization_of(
    docker_marker: bool,
    cgroup: Seq<char>,
    product: Seq<char>,
    xen: bool,
    cpuinfo: Seq<char>,
) -> Seq<char> {
    let c = lowercase(cgroup);
    let p = lowercase(product);
    if docker_marker {
        "docker"@
    } else if contains(c, "docker"@) {
        "docker"@
    } else if contains(c, "lxc"@) {
        "lxc"@
    } else if contains(c, "podman"@) {
        "podman"@
    } else if contains(c, "containerd"@) {
        "containerd"@
    } else if contains(p, "kvm"@) {
        "kvm"@
    } else if contains(p, "qemu"@) {
        "qemu"@
    } else if contains(p, "vmware"@) {
        "vmware"@
    } else if contains(p, "virtualbox"@) {
        "virtualbox"@
    } else if contains(p, "hyper-v"@) {
        "hyper-v"@
    } else if xen {
        "xen"@
    } else if contains(cpuinfo, "hypervisor"@) {
        "virtualized"@
    } else {
        "unknown"@
    }
}

/// Container markers win: `/.dockerenv` gives `docker`, and otherwise the
/// first of `docker`, `lxc`, `podman`, `containerd` in the lower-cased
/// cgroups names the runtime. Without any, the lower-cased DMI product name
/// decides: one containing `kvm` gives `kvm`, and otherwise `qemu`,
/// `vmware`, `virtualbox` and `hyper-v` are tried in that order; then a Xen
/// host gives `xen`, and a `hypervisor` flag in `/proc/cpuinfo` gives
/// `virtualized`. The answer is `kvm` exactly when no container is found
/// and the product name mentions KVM.
pub proof fn law_virtualization_order(
    docker_marker: bool,
    cgroup: Seq<char>,
    product: Seq<char>,
    xen: bool,
    cpuinfo: Seq<char>,
)
    ensures
        ({
            let r = virtualization_of(docker_marker, cgroup, product, xen, cpuinfo);
            let c = lowercase(cgroup);
            let p = lowercase(product);
            let container = docker_marker || contains(c, "docker"@) || contains(c, "lxc"@)
                || contains(c, "podman"@) || contains(c, "containerd"@);
            &&& docker_marker ==> r == "docker"@
            &&& !docker_marker && contains(c, "docker"@) ==> r == "docker"@
            &&& !docker_marker && !contains(c, "docker"@) && contains(c, "lxc"@) ==> r == "lxc"@
            &&& !docker_marker && !contains(c, "docker"@) && !contains(c, "lxc"@) && contains(
                c,
                "podman"@,
            ) ==> r == "podman"@
            &&& !docker_marker && !contains(c, "docker"@) && !contains(c, "lxc"@) && !contains(
                c,
                "podman"@,
            ) && contains(c, "containerd"@) ==> r == "containerd"@
            &&& !container && contains(p, "kvm"@) ==> r == "kvm"@
            &&& !container && !contains(p, "kvm"@) && contains(p, "qemu"@) ==> r == "qemu"@
            &&& !container && !contains(p, "kvm"@) && !contains(p, "qemu"@) && contains(
                p,
                "vmware"@,
            ) ==> r == "vmware"@
            &&& !container && !contains(p, "kvm"@) && !contains(p, "qemu"@) && !contains(
                p,
                "vmware"@,
            ) && contains(p, "virtualbox"@) ==> r == "virtualbox"@
            &&& !container && !contains(p, "kvm"@) && !contains(p, "qemu"@) && !contains(
                p,
                "vmware"@,
            ) && !contains(p, "virtualbox"@) && contains(p, "hyper-v"@) ==> r == "hyper-v"@
            &&& !container && !contains(p, "kvm"@) && !contains(p, "qemu"@) && !contains(
                p,
                "vmware"@,
            ) && !contains(p, "virtualbox"@) && !contains(p, "hyper-v"@) ==> r == if xen {
                "xen"@
            } else if contains(cpuinfo, "hypervisor"@) {
                "virtualized"@
            } else {
                "unknown"@
            }
            &&& r == "kvm"@ <==> !container && contains(p, "kvm"@)
        }),
{
    reveal_strlit("docker");
    reveal_strlit("lxc");
    reveal_strlit("podman");
    reveal_strlit("containerd");
    reveal_strlit("kvm");
    reveal_strlit("qemu");
    reveal_strlit("vmware");
    reveal_strlit("virtualbox");
    reveal_strlit("hyper-v");
    reveal_strlit("xen");
    reveal_strlit("virtualized");
    reveal_strlit("unknown");
    assert("lxc"@ != "kvm"@) by {
        assert("lxc"@[0] != "kvm"@[0]);
    }
    assert("xen"@ != "kvm"@) by {
        assert("xen"@[0] != "kvm"@[0]);
    }
    assert("docker"@ != "kvm"@) by {
        assert("docker"@[0] != "kvm"@[0]);
    }
    assert("podman"@ != "kvm"@) by {
        assert("podman"@[0] != "kvm"@[0]);
    }
    assert("containerd"@ != "kvm"@) by {
        assert("containerd"@[0] != "kvm"@[0]);
    }
    assert("qemu"@ != "kvm"@) by {
        assert("qemu"@[0] != "kvm"@[0]);
    }
    assert("vmware"@ != "kvm"@) by {
        assert("vmware"@[0] != "kvm"@[0]);
    }
    assert("virtualbox"@ != "kvm"@) by {
        assert("virtualbox"@[0] != "kvm"@[0]);
    }
    assert("hyper-v"@ != "kvm"@) by {
        assert("hyper-v"@[0] != "kvm"@[0]);
    }
    assert("virtualized"@ != "kvm"@) by {
        assert("virtualized"@[0] != "kvm"@[0]);
    }
    assert("unknown"@ != "kvm"@) by {
        assert("unknown"@[0] != "kvm"@[0]);
    }
}

fn mentions(text: &Vec<char>, word: &str) -> (r: bool)
    ensures
        r == contains(text@, word@),
{
    let w = chars_of(word);
    contains_chars(text, &w)
}

pub fn detect_virtualization(
    docker_marker: bool,
    cgroup: &str,
    product: &str,
    xen: bool,
    cpuinfo: &str,
) -> (r: String)
    ensures
        r@ == virtualization_of(docker_marker, cgroup@, product@, xen, cpuinfo@),
{
    if docker_marker {
        return "docker".to_owned();
    }
    let c = to_lowercase(&chars_of(cgroup));
    if mentions(&c, "docker") {
        return "docker".to_owned();
    }
    if mentions(&c, "lxc") {
        return "lxc".to_owned();
    }
    if mentions(&c, "podman") {
        return "podman".to_owned();
    }
    if mentions(&c, "containerd") {
        return "containerd".to_owned();
    }
    let p = to_lowercase(&chars_of(product));
    if mentions(&p, "kvm") {
        return "kvm".to_owned();
    }
    if mentions(&p, "qemu") {
        return "qemu".to_owned();
    }
    if mentions(&p, "vmware") {
        return "vmware".to_owned();
    }
    if mentions(&p, "virtualbox") {
        return "virtualbox".to_owned();
    }
    if mentions(&p, "hyper-v") {
        return "hyper-v".to_owned();
    }
    if xen {
        return "xen".to_owned();
    }
    let cpu = chars_of(cpuinfo);
    if mentions(&cpu, "hypervisor") {
        "virtualized".to_owned()
    } else {
        "unknown".to_owned()
    }
}

// ---------------------------------------------------------------------------
// Counts, disk and reconnection
// ---------------------------------------------------------------------------

/// Sockets listed in a `/proc/net/{tcp,udp}{,6}` table: its lines less the
/// header, as a `u32` (low 32 bits).
pub fn socket_count(text: &str) -> (r: u32)
    ensures
        r == (if lines(text@).len() >= 1 {
            lines(text@).len() - 1
        } else {
            0
        }) as u32,
{
    let all = chars_of(text);
    let n = split_lines(&all).len();
    let sockets = if n >= 1 {
        n - 1
    } else {
        0
    };
    #[verifier::truncate]
    (sockets as u32)
}

/// A `/proc` entry names a process when all its bytes are ASCII digits.
pub open spec fn process_entry(name: Seq<char>) -> bool {
    let b = crate::text::utf8(name);
    forall|i: int| 0 <= i < b.len() ==> 0x30 <= #[trigger] b[i] <= 0x39
}

pub fn is_process_entry(name: &str) -> (r: bool)
    ensures
        r == process_entry(name@),
{
    let bytes = name.as_bytes();
    let mut i: usize = 0;
    while i < bytes.len()
        invariant
            i <= bytes.len(),
            bytes@ == crate::text::utf8(name@),
            forall|j: int| 0 <= j < i ==> 0x30 <= #[trigger] bytes@[j] <= 0x39,
        decreases bytes.len() - i,
    {
        if bytes[i] < 0x30 || bytes[i] > 0x39 {
            return false;
        }
        i = i + 1;
    }
    true
}

pub open spec fn sat_mul(a: u64, b: u64) -> u64 {
    if a * b > u64::MAX {
        u64::MAX
    } else {
        (a * b) as u64
    }
}

/// Size and use of a file system from `statvfs` figures: blocks times
/// fragment size, less what unprivileged users may still use; saturating.
pub fn disk_usage(blocks: u64, available_blocks: u64, fragment_size: u64) -> (r: (u64, u64))
    ensures
        r.0 == sat_mul(blocks, fragment_size),
        r.1 == sat_sub(
            sat_mul(blocks, fragment_size) as nat,
            sat_mul(available_blocks, fragment_size) as nat,
        ),
{
    let total = match blocks.checked_mul(fragment_size) {
        Some(v) => v,
        None => u64::MAX,
    };
    let available = match available_blocks.checked_mul(fragment_size) {
        Some(v) => v,
        None => u64::MAX,
    };
    (total, total.saturating_sub(available))
}

/// Wait before reconnecting, and the wait after that: a connection that lasted
/// 30 seconds or more starts again at two seconds; waits double up to 30.
pub open spec fn backoff_after(backoff: u64, long_session: bool) -> (u64, u64) {
    let wait = if long_session {
        2
    } else {
        backoff
    };
    (wait, if wait * 2 < 30 {
        (wait * 2) as u64
    } else {
        30
    })
}

pub fn reconnect_delay(backoff: u64, long_session: bool) -> (r: (u64, u64))
    requires
        long_session || backoff <= u64::MAX / 2,
    ensures
        r == backoff_after(backoff, long_session),
{
    let wait = if long_session {
        2
    } else {
        backoff
    };
    let doubled = wait * 2;
    (wait, if doubled < 30 {
        doubled
    } else {
        30
    })
}

/// Starting from two seconds, every wait stays from two to 30 seconds.
pub proof fn law_backoff_is_bounded(backoff: u64, long_session: bool)
    requires
        2 <= backoff <= 30,
    ensures
        2 <= backoff_after(backoff, long_session).0 <= 30,
        2 <= backoff_after(backoff, long_session).1 <= 30,
{
}

/// What the agent's sampler should switch to when the server announces
/// `updated` at `revision`: nothing when the targets are invalid or equal to
/// what it already has.
pub open spec fn target_update_of(
    current: Option<(LatencyTargets, u64)>,
    updated: LatencyTargets,
    revision: u64,
) -> bool {
    targets_ok(updated) && !(current matches Some((t, rv)) && t.model() == updated.model() && rv
        == revision)
}

pub fn target_update(
    current: &Option<(LatencyTargets, u64)>,
    updated: LatencyTargets,
    revision: u64,
) -> (r: Option<(LatencyTargets, u64)>)
    ensures
        r is Some <==> target_update_of(*current, updated, revision),
        r matches Some((t, rv)) ==> t == updated && rv == revision,
{
    if !valid_targets(&updated) {
        return None;
    }
    let unchanged = match current {
        Some((t, rv)) => *rv == revision && t.same_as(&updated),
        None => false,
    };
    if unchanged {
        None
    } else {
        Some((updated, revision))
    }
}

/// The latency sampling period once targets announce `announced` seconds:
/// a valid interval (10 to 3600 seconds) is taken, anything else keeps `period`.
pub fn sampling_period(period: u64, announced: u64) -> (r: u64)
    ensures
        r == if latency_interval_ok(announced) {
            announced
        } else {
            period
        },
{
    if valid_latency_interval(announced) {
        announced
    } else {
        period
    }
}

// ---------------------------------------------------------------------------
// Connection to the server
// ---------------------------------------------------------------------------

/// Static host facts are collected again after five minutes.
pub const STATIC_REFRESH_NANOS: u128 = 300_000_000_000;

/// The server counts as gone when nothing was heard from it for 45 seconds.
pub const HEARTBEAT_TIMEOUT_NANOS: u128 = 45_000_000_000;

/// What happened on the agent's connection to the server.
#[derive(Debug, Clone)]
pub enum AgentEvent {
    /// The report timer fired; static facts were collected that long ago.
    ReportDue { since_static_nanos: u128 },
    /// The heartbeat timer fired; the server was last heard from that long ago.
    HeartbeatDue { since_heard_nanos: u128 },
    /// The server announced latency targets at a revision.
    Announced { targets: LatencyTargets, revision: u64 },
    /// The server sent a ping with this payload.
    Ping(Vec<u8>),
    /// The server sent a frame that needs no answer.
    Other,
    /// The server closed the connection, or the stream ended.
    Closed,
    /// The connection failed.
    Failed,
}

/// What the agent does about an event.
#[derive(Debug, Clone, PartialEq, Eq)]
pub enum AgentAction {
    /// Collect and send a report, collecting static facts first if asked.
    SendReport { refresh_static: bool },
    /// Send a ping to the server.
    SendPing,
    /// Give up the connection: the server stopped answering.
    HeartbeatLost,
    /// Measure these targets from now on.
    SwitchTargets(LatencyTargets, u64),
    /// Answer a ping with its payload.
    SendPong(Vec<u8>),
    /// Nothing to do.
    Nothing,
    /// End the connection normally.
    Stop,
    /// End the connection with an error.
    Abort,
}

/// The agent's answer to `event` while it measures `current`.
pub open spec fn agent_action_of(current: Option<(LatencyTargets, u64)>, event: AgentEvent) -> AgentAction {
    match event {
        AgentEvent::ReportDue { since_static_nanos } => AgentAction::SendReport {
            refresh_static: since_static_nanos >= STATIC_REFRESH_NANOS,
        },
        AgentEvent::HeartbeatDue { since_heard_nanos } => if since_heard_nanos
            > HEARTBEAT_TIMEOUT_NANOS {
            AgentAction::HeartbeatLost
        } else {
            AgentAction::SendPing
        },
        AgentEvent::Announced { targets, revision } => if target_update_of(
            current,
            targets,
            revision,
        ) {
            AgentAction::SwitchTargets(targets, revision)
        } else {
            AgentAction::Nothing
        },
        AgentEvent::Ping(payload) => AgentAction::SendPong(payload),
        AgentEvent::Other => AgentAction::Nothing,
        AgentEvent::Closed => AgentAction::Stop,
        AgentEvent::Failed => AgentAction::Abort,
    }
}

/// Decides what the agent does about one event on its connection.
pub fn agent_step(current: &Option<(LatencyTargets, u64)>, event: AgentEvent) -> (r: AgentAction)
    ensures
        r == agent_action_of(*current, event),
{
    match event {
        AgentEvent::ReportDue { since_static_nanos } => AgentAction::SendReport {
            refresh_static: since_static_nanos >= STATIC_REFRESH_NANOS,
        },
        AgentEvent::HeartbeatDue { since_heard_nanos } => {
            if since_heard_nanos > HEARTBEAT_TIMEOUT_NANOS {
                AgentAction::HeartbeatLost
            } else {
                AgentAction::SendPing
            }
        },
        AgentEvent::Announced { targets, revision } => match target_update(current, targets, revision) {
            Some((t, rv)) => AgentAction::SwitchTargets(t, rv),
            None => AgentAction::Nothing,
        },
        AgentEvent::Ping(payload) => AgentAction::SendPong(payload),
        AgentEvent::Other => AgentAction::Nothing,
        AgentEvent::Closed => AgentAction::Stop,
        AgentEvent::Failed => AgentAction::Abort,
    }
}

/// An announcement switches the targets at most once: announcing again what
/// was just taken changes nothing, and invalid targets are never taken.
pub proof fn law_announcement_applies_once(
    current: Option<(LatencyTargets, u64)>,
    targets: LatencyTargets,
    revision: u64,
)
    ensures
        target_update_of(current, targets, revision) ==> !target_update_of(
            Some((targets, revision)),
            targets,
            revision,
        ),
        !targets_ok(targets) ==> agent_action_of(
            current,
            AgentEvent::Announced { targets, revision },
        ) == AgentAction::Nothing,
{
}

} // verus!
