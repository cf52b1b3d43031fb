//! Shared data of the agent and the server: interface counters, latency
//! targets and settings, with the rules that both sides apply to them.
use vstd::prelude::*;

use crate::external::{ipv6_text, parses_as_ipv6};
use crate::text::{
    chars_of, find_char, has_prefix, has_suffix, index_of, is_ascii_alphanumeric, is_ascii_char,
    last_index_of, lemma_index_of, parse_u64, parse_unsigned, rsplit_once, rsplit_once_at, slice_chars, string_of,
    ascii_alphanumeric,
};

verus! {

pub const PROTOCOL_VERSION: u8 = 1;

pub const DEFAULT_LATENCY_INTERVAL_SECS: u64 = 30;

/// Seconds after the last report at which a node counts as offline.
pub const OFFLINE_AFTER_SECS: i64 = 12;

pub fn default_latency_interval() -> (r: u64)
    ensures
        r == DEFAULT_LATENCY_INTERVAL_SECS,
{
    DEFAULT_LATENCY_INTERVAL_SECS
}

/// A latency probe interval is accepted from 10 seconds to one hour.
pub open spec fn latency_interval_ok(seconds: u64) -> bool {
    10 <= seconds <= 3600
}

pub fn valid_latency_interval(seconds: u64) -> (r: bool)
    ensures
        r == latency_interval_ok(seconds),
{
    10 <= seconds && seconds <= 3600
}

// ---------------------------------------------------------------------------
// Interface counters
// ---------------------------------------------------------------------------

/// Cumulative kernel byte counters of one network interface.
#[derive(Debug, Clone, PartialEq, Eq)]
pub struct NetworkCounter {
    pub name: String,
    pub index: u32,
    pub rx: u64,
    pub tx: u64,
}

/// Whether two counters describe the same interface (same name, same index).
pub open spec fn same_interface(a: NetworkCounter, b: NetworkCounter) -> bool {
    a.name@ == b.name@ && a.index == b.index
}

/// Position of the first counter of `prev` for the interface of `next`,
/// or `prev.len()` when the interface is new.
pub open spec fn interface_position(prev: Seq<NetworkCounter>, next: NetworkCounter) -> int
    decreases prev.len(),
{
    if prev.len() == 0 {
        0
    } else if same_interface(prev[0], next) {
        0
    } else {
        1 + interface_position(prev.drop_first(), next)
    }
}

pub proof fn lemma_interface_position(prev: Seq<NetworkCounter>, next: NetworkCounter)
    ensures
        0 <= interface_position(prev, next) <= prev.len(),
        interface_position(prev, next) < prev.len() ==> same_interface(
            prev[interface_position(prev, next)],
            next,
        ),
        forall|j: int|
            0 <= j < interface_position(prev, next) ==> !same_interface(prev[j], next),
    decreases prev.len(),
{
    if prev.len() > 0 && !same_interface(prev[0], next) {
        lemma_interface_position(prev.drop_first(), next);
        assert forall|j: int| 0 <= j < interface_position(prev, next) implies !same_interface(
            prev[j],
            next,
        ) by {
            if j > 0 {
                assert(prev[j] == prev.drop_first()[j - 1]);
            }
        }
    }
}

pub proof fn lemma_interface_position_is(prev: Seq<NetworkCounter>, next: NetworkCounter, i: int)
    requires
        0 <= i <= prev.len(),
        i < prev.len() ==> same_interface(prev[i], next),
        forall|j: int| 0 <= j < i ==> !same_interface(prev[j], next),
    ensures
        interface_position(prev, next) == i,
    decreases prev.len(),
{
    if prev.len() > 0 && i > 0 {
        assert(!same_interface(prev[0], next));
        assert forall|j: int| 0 <= j < i - 1 implies !same_interface(prev.drop_first()[j], next) by {
            assert(!same_interface(prev[j + 1], next));
        }
        lemma_interface_position_is(prev.drop_first(), next, i - 1);
    }
}

/// Growth of one counter: the difference, or, after a counter reset, the new value.
pub open spec fn counter_growth(before: u64, after: u64) -> u64 {
    if after >= before {
        (after - before) as u64
    } else {
        after
    }
}

pub open spec fn sat_add(a: u64, b: u64) -> u64 {
    if a + b > u64::MAX {
        u64::MAX
    } else {
        (a + b) as u64
    }
}

/// Received and sent bytes between two snapshots, summed (saturating) over the
/// interfaces of `cur` in order; an interface that `prev` lacks adds nothing.
pub open spec fn delta_of(prev: Seq<NetworkCounter>, cur: Seq<NetworkCounter>) -> (u64, u64)
    decreases cur.len(),
{
    if cur.len() == 0 {
        (0, 0)
    } else {
        let (rx, tx) = delta_of(prev, cur.drop_last());
        let next = cur.last();
        let i = interface_position(prev, next);
        if 0 <= i < prev.len() {
            (
                sat_add(rx, counter_growth(prev[i].rx, next.rx)),
                sat_add(tx, counter_growth(prev[i].tx, next.tx)),
            )
        } else {
            (rx, tx)
        }
    }
}

fn same_name(a: &String, b: &String) -> (r: bool)
    ensures
        r == (a@ == b@),
{
    *a == *b
}

/// Position of the first counter in `prev` for the interface of `next`.
fn find_interface(prev: &[NetworkCounter], next: &NetworkCounter) -> (i: usize)
    ensures
        i == interface_position(prev@, *next),
{
    let mut i: usize = 0;
    while i < prev.len()
        invariant
            i <= prev.len(),
            forall|j: int| 0 <= j < i ==> !same_interface(prev@[j], *next),
        decreases prev.len() - i,
    {
        if prev[i].index == next.index && same_name(&prev[i].name, &next.name) {
            proof {
                lemma_interface_position_is(prev@, *next, i as int);
            }
            return i;
        }
        i = i + 1;
    }
    proof {
        lemma_interface_position_is(prev@, *next, i as int);
    }
    i
}

/// Traffic between two counter snapshots. A newly discovered or replaced
/// interface establishes a baseline rather than a traffic spike.
pub fn network_delta(previous: &[NetworkCounter], current: &[NetworkCounter]) -> (r: (u64, u64))
    ensures
        r == delta_of(previous@, current@),
{
    let mut rx: u64 = 0;
    let mut tx: u64 = 0;
    let mut k: usize = 0;
    proof {
        assert(current@.take(0) =~= Seq::<NetworkCounter>::empty());
    }
    while k < current.len()
        invariant
            k <= current.len(),
            (rx, tx) == delta_of(previous@, current@.take(k as int)),
        decreases current.len() - k,
    {
        let next = &current[k];
        let i = find_interface(previous, next);
        proof {
            let c = current@.take(k + 1);
            assert(c.drop_last() =~= current@.take(k as int));
            assert(c.last() == current@[k as int]);
        }
        if i < previous.len() {
            let old = &previous[i];
            let drx = if next.rx >= old.rx {
                next.rx - old.rx
            } else {
                next.rx
            };
            let dtx = if next.tx >= old.tx {
                next.tx - old.tx
            } else {
                next.tx
            };
            rx = rx.saturating_add(drx);
            tx = tx.saturating_add(dtx);
        }
        k = k + 1;
    }
    proof {
        assert(current@.take(k as int) =~= current@);
    }
    (rx, tx)
}

/// Sum of the received and sent counters of all interfaces, saturating.
pub open spec fn totals_of(cur: Seq<NetworkCounter>) -> (u64, u64)
    decreases cur.len(),
{
    if cur.len() == 0 {
        (0, 0)
    } else {
        let (rx, tx) = totals_of(cur.drop_last());
        (sat_add(rx, cur.last().rx), sat_add(tx, cur.last().tx))
    }
}

pub fn network_totals(current: &[NetworkCounter]) -> (r: (u64, u64))
    ensures
        r == totals_of(current@),
{
    let mut rx: u64 = 0;
    let mut tx: u64 = 0;
    let mut k: usize = 0;
    proof {
        assert(current@.take(0) =~= Seq::<NetworkCounter>::empty());
    }
    while k < current.len()
        invariant
            k <= current.len(),
            (rx, tx) == totals_of(current@.take(k as int)),
        decreases current.len() - k,
    {
        proof {
            let c = current@.take(k + 1);
            assert(c.drop_last() =~= current@.take(k as int));
        }
        rx = rx.saturating_add(current[k].rx);
        tx = tx.saturating_add(current[k].tx);
        k = k + 1;
    }
    proof {
        assert(current@.take(k as int) =~= current@);
    }
    (rx, tx)
}

/// Whether no two counters of `s` describe the same interface.
pub open spec fn interfaces_distinct(s: Seq<NetworkCounter>) -> bool {
    forall|i: int, j: int| 0 <= i < j < s.len() ==> !same_interface(#[trigger] s[i], #[trigger] s[j])
}

/// With no earlier snapshot, no traffic is counted: the first report is a baseline.
pub proof fn law_first_snapshot_is_baseline(cur: Seq<NetworkCounter>)
    ensures
        delta_of(Seq::empty(), cur) == (0u64, 0u64),
    decreases cur.len(),
{
    if cur.len() > 0 {
        law_first_snapshot_is_baseline(cur.drop_last());
    }
}

/// An interface that the earlier snapshot does not know adds no traffic.
pub proof fn law_new_interface_adds_nothing(
    prev: Seq<NetworkCounter>,
    cur: Seq<NetworkCounter>,
    next: NetworkCounter,
)
    requires
        forall|j: int| 0 <= j < prev.len() ==> !same_interface(prev[j], next),
    ensures
        delta_of(prev, cur.push(next)) == delta_of(prev, cur),
{
    lemma_interface_position(prev, next);
    assert(cur.push(next).drop_last() =~= cur);
}

/// A snapshot compared with itself shows no traffic, when no interface is listed twice.
pub proof fn law_unchanged_counters_add_nothing(s: Seq<NetworkCounter>)
    requires
        interfaces_distinct(s),
    ensures
        delta_of(s, s) == (0u64, 0u64),
{
    lemma_delta_self_prefix(s, s.len() as int);
    assert(s.take(s.len() as int) =~= s);
}

proof fn lemma_delta_self_prefix(s: Seq<NetworkCounter>, k: int)
    requires
        interfaces_distinct(s),
        0 <= k <= s.len(),
    ensures
        delta_of(s, s.take(k)) == (0u64, 0u64),
    decreases k,
{
    if k > 0 {
        lemma_delta_self_prefix(s, k - 1);
        let c = s.take(k);
        assert(c.drop_last() =~= s.take(k - 1));
        let next = s[k - 1];
        assert forall|j: int| 0 <= j < k - 1 implies !same_interface(s[j], next) by {
            assert(!same_interface(s[j], s[k - 1]));
        }
        lemma_interface_position_is(s, next, k - 1);
    }
}

/// Growth of the received (`rx`) or sent counter of `next` since `prev`;
/// nothing for an interface that `prev` lacks.
pub open spec fn gain(prev: Seq<NetworkCounter>, next: NetworkCounter, rx: bool) -> nat {
    let i = interface_position(prev, next);
    if 0 <= i < prev.len() {
        if rx {
            counter_growth(prev[i].rx, next.rx) as nat
        } else {
            counter_growth(prev[i].tx, next.tx) as nat
        }
    } else {
        0
    }
}

/// The sum, without any cap, of the growth of every interface of `cur`.
pub open spec fn gain_sum(prev: Seq<NetworkCounter>, cur: Seq<NetworkCounter>, rx: bool) -> nat
    decreases cur.len(),
{
    if cur.len() == 0 {
        0
    } else {
        gain_sum(prev, cur.drop_last(), rx) + gain(prev, cur.last(), rx)
    }
}

/// `n`, or `u64::MAX` when it does not fit.
pub open spec fn capped(n: nat) -> u64 {
    if n > u64::MAX {
        u64::MAX
    } else {
        n as u64
    }
}

/// The traffic between two snapshots is the sum of every interface's growth,
/// capped at `u64::MAX`.
pub proof fn law_delta_is_capped_sum(prev: Seq<NetworkCounter>, cur: Seq<NetworkCounter>)
    ensures
        delta_of(prev, cur) == (capped(gain_sum(prev, cur, true)), capped(gain_sum(prev, cur, false))),
    decreases cur.len(),
{
    if cur.len() > 0 {
        law_delta_is_capped_sum(prev, cur.drop_last());
    }
}

/// Taking one interface out of a snapshot takes its growth out of the sum.
proof fn lemma_gain_sum_remove(prev: Seq<NetworkCounter>, s: Seq<NetworkCounter>, i: int, rx: bool)
    requires
        0 <= i < s.len(),
    ensures
        gain_sum(prev, s, rx) == gain_sum(prev, s.remove(i), rx) + gain(prev, s[i], rx),
    decreases s.len(),
{
    if i == s.len() - 1 {
        assert(s.remove(i) =~= s.drop_last());
    } else {
        let r = s.remove(i);
        assert(r.drop_last() =~= s.drop_last().remove(i));
        assert(r.last() == s.last());
        lemma_gain_sum_remove(prev, s.drop_last(), i, rx);
    }
}

/// Snapshots with the same counters, in whatever order, have the same sum.
proof fn lemma_gain_sum_permutation(
    prev: Seq<NetworkCounter>,
    a: Seq<NetworkCounter>,
    b: Seq<NetworkCounter>,
    rx: bool,
)
    requires
        a.to_multiset() == b.to_multiset(),
    ensures
        gain_sum(prev, a, rx) == gain_sum(prev, b, rx),
    decreases a.len(),
{
    broadcast use vstd::seq_lib::group_to_multiset_ensures;

    if a.len() == 0 {
        assert(a.to_multiset().len() == a.len());
        assert(b.to_multiset().len() == b.len());
        assert(b =~= a);
    } else {
        let x = a.last();
        let d = a.drop_last();
        assert(a =~= d.push(x));
        assert(a.contains(x)) by {
            assert(a[a.len() - 1] == x);
        }
        assert(b.to_multiset().count(x) > 0);
        assert(b.contains(x));
        let i = choose|i: int| 0 <= i < b.len() && b[i] == x;
        assert(b.remove(i).to_multiset() =~= d.to_multiset());
        lemma_gain_sum_permutation(prev, d, b.remove(i), rx);
        lemma_gain_sum_remove(prev, b, i, rx);
    }
}

/// Reordering the current snapshot does not change the traffic between two
/// snapshots.
pub proof fn law_delta_ignores_order(
    prev: Seq<NetworkCounter>,
    cur: Seq<NetworkCounter>,
    reordered: Seq<NetworkCounter>,
)
    requires
        reordered.to_multiset() == cur.to_multiset(),
    ensures
        delta_of(prev, reordered) == delta_of(prev, cur),
{
    law_delta_is_capped_sum(prev, cur);
    law_delta_is_capped_sum(prev, reordered);
    lemma_gain_sum_permutation(prev, cur, reordered, true);
    lemma_gain_sum_permutation(prev, cur, reordered, false);
}

// ---------------------------------------------------------------------------
// Latency targets
// ---------------------------------------------------------------------------

/// A DNS label: 1 to 63 ASCII letters, digits or hyphens, not starting or
/// ending with a hyphen.
pub open spec fn valid_label(p: Seq<char>) -> bool {
    &&& 0 < p.len() <= 63
    &&& p[0] != '-'
    &&& p.last() != '-'
    &&& forall|i: int| 0 <= i < p.len() ==> is_ascii_alphanumeric(p[i]) || p[i] == '-'
}

/// `str::split(c)`: the pieces between the occurrences of `c`; never empty.
pub open spec fn split_on(s: Seq<char>, c: char) -> Seq<Seq<char>>
    decreases s.len(),
{
    let i = index_of(s, c);
    if i < s.len() {
        proof {
            lemma_index_of(s, c);
        }
        seq![s.take(i)] + split_on(s.skip(i + 1), c)
    } else {
        seq![s]
    }
}

/// Whether every piece of `split_on(s, '.')` is a DNS label.
pub open spec fn labels_ok(s: Seq<char>) -> bool {
    forall|k: int| 0 <= k < split_on(s, '.').len() ==> valid_label(#[trigger] split_on(s, '.')[k])
}

pub open spec fn valid_hostname(host: Seq<char>) -> bool {
    host.len() > 0 && labels_ok(host)
}

proof fn lemma_labels_ok_step(s: Seq<char>)
    ensures
        index_of(s, '.') < s.len() ==> labels_ok(s) == (valid_label(s.take(index_of(s, '.')))
            && labels_ok(s.skip(index_of(s, '.') + 1))),
        index_of(s, '.') >= s.len() ==> labels_ok(s) == valid_label(s),
{
    lemma_index_of(s, '.');
    let i = index_of(s, '.');
    let sp = split_on(s, '.');
    if i < s.len() {
        let tail = s.skip(i + 1);
        assert(sp == seq![s.take(i)] + split_on(tail, '.'));
        if valid_label(s.take(i)) && labels_ok(tail) {
            assert forall|k: int| 0 <= k < sp.len() implies valid_label(#[trigger] sp[k]) by {
                if k > 0 {
                    assert(sp[k] == split_on(tail, '.')[k - 1]);
                }
            }
        }
        if labels_ok(s) {
            assert(sp[0] == s.take(i));
            assert forall|k: int| 0 <= k < split_on(tail, '.').len() implies valid_label(
                #[trigger] split_on(tail, '.')[k],
            ) by {
                assert(split_on(tail, '.')[k] == sp[k + 1]);
            }
        }
    } else {
        assert(sp == seq![s]);
        assert(sp[0] == s);
    }
}

/// `host:port` with a DNS name or dotted address, or `[IPv6]:port`, in at
/// most 255 ASCII characters, with a port from 1 to 65535.
pub open spec fn target_ok(t: Seq<char>) -> bool {
    &&& t.len() > 0
    &&& t.len() <= 255
    &&& forall|i: int| 0 <= i < t.len() ==> is_ascii_char(t[i])
    &&& match rsplit_once(t, ':') {
        None => false,
        Some((host, port)) => {
            &&& match parse_unsigned(port, 65535) {
                Some(p) => p > 0,
                None => false,
            }
            &&& if has_prefix(host, seq!['[']) && has_suffix(host, seq![']']) {
                ipv6_text(host.subrange(1, host.len() - 1))
            } else {
                valid_hostname(host)
            }
        },
    }
}

/// Characters that a host of DNS labels may hold.
pub open spec fn hostname_char(c: char) -> bool {
    is_ascii_alphanumeric(c) || c == '-' || c == '.'
}

/// A host made of DNS labels holds only letters, digits, hyphens and dots.
proof fn lemma_labels_chars(s: Seq<char>)
    requires
        labels_ok(s),
    ensures
        forall|j: int| 0 <= j < s.len() ==> hostname_char(#[trigger] s[j]),
    decreases s.len(),
{
    lemma_labels_ok_step(s);
    lemma_index_of(s, '.');
    let i = index_of(s, '.');
    if i < s.len() {
        let tail = s.skip(i + 1);
        lemma_labels_chars(tail);
        assert forall|j: int| 0 <= j < s.len() implies hostname_char(#[trigger] s[j]) by {
            if j < i {
                assert(s.take(i)[j] == s[j]);
            } else if j > i {
                assert(tail[j - i - 1] == s[j]);
            }
        }
    }
}

/// `last_index_of` finds the last occurrence, or -1 when there is none.
proof fn lemma_last_index_of(s: Seq<char>, c: char)
    ensures
        -1 <= last_index_of(s, c) < s.len(),
        last_index_of(s, c) >= 0 ==> s[last_index_of(s, c)] == c,
        forall|j: int| last_index_of(s, c) < j < s.len() ==> s[j] != c,
    decreases s.len(),
{
    if s.len() > 0 && s.last() != c {
        lemma_last_index_of(s.drop_last(), c);
        assert forall|j: int| last_index_of(s, c) < j < s.len() implies s[j] != c by {
            if j < s.len() - 1 {
                assert(s[j] == s.drop_last()[j]);
            }
        }
    }
}

/// A valid latency target is `host:port`: its last `:` has a host of at
/// least one character before it and, after it, a port from 1 to 65535;
/// a host that does not start with `[` holds only letters, digits, hyphens
/// and dots.
pub proof fn law_target_shape(t: Seq<char>)
    requires
        target_ok(t),
    ensures
        exists|k: int|
            {
                &&& 0 < k < t.len() - 1
                &&& #[trigger] t[k] == ':'
                &&& forall|j: int| k < j < t.len() ==> t[j] != ':'
                &&& match parse_unsigned(t.skip(k + 1), 65535) {
                    Some(p) => 1 <= p <= 65535,
                    None => false,
                }
                &&& t[0] != '[' ==> forall|j: int| 0 <= j < k ==> hostname_char(t[j])
            },
{
    lemma_last_index_of(t, ':');
    let k = last_index_of(t, ':');
    let host = t.take(k);
    let port = t.skip(k + 1);
    assert(rsplit_once(t, ':') == Some((host, port)));
    if t[0] != '[' {
        if k > 0 {
            assert(host[0] == t[0]);
            assert(host.take(1)[0] == host[0]);
        }
        assert(!has_prefix(host, seq!['[']));
        assert(valid_hostname(host));
        lemma_labels_chars(host);
        assert forall|j: int| 0 <= j < k implies hostname_char(t[j]) by {
            assert(host[j] == t[j]);
        }
    }
    assert(t[k] == ':');
}

fn valid_label_chars(v: &Vec<char>, from: usize, to: usize) -> (r: bool)
    requires
        from <= to <= v.len(),
    ensures
        r == valid_label(v@.subrange(from as int, to as int)),
{
    let ghost p = v@.subrange(from as int, to as int);
    if to == from || to - from > 63 || v[from] == '-' || v[to - 1] == '-' {
        return false;
    }
    let mut i = from;
    while i < to
        invariant
            from <= i <= to <= v.len(),
            p == v@.subrange(from as int, to as int),
            forall|j: int| 0 <= j < i - from ==> is_ascii_alphanumeric(p[j]) || p[j] == '-',
        decreases to - i,
    {
        let c = v[i];
        if !(ascii_alphanumeric(c) || c == '-') {
            assert(p[i - from] == c);
            return false;
        }
        i = i + 1;
    }
    true
}

/// Whether every `.`-separated label of `host` is a DNS label.
fn valid_hostname_chars(host: &Vec<char>) -> (r: bool)
    ensures
        r == valid_hostname(host@),
{
    if host.len() == 0 {
        return false;
    }
    let mut pos: usize = 0;
    proof {
        assert(host@.skip(0) =~= host@);
    }
    loop
        invariant
            pos <= host.len(),
            host.len() > 0,
            labels_ok(host@) == labels_ok(host@.skip(pos as int)),
        decreases host.len() - pos,
    {
        let ghost rest = host@.skip(pos as int);
        let e = find_char(host, '.', pos);
        proof {
            lemma_index_of(rest, '.');
            lemma_labels_ok_step(rest);
            assert(rest.take(e - pos) =~= host@.subrange(pos as int, e as int));
        }
        if !valid_label_chars(host, pos, e) {
            proof {
                if e >= host.len() {
                    assert(rest =~= host@.subrange(pos as int, e as int));
                }
            }
            return false;
        }
        if e == host.len() {
            proof {
                assert(rest =~= host@.subrange(pos as int, e as int));
            }
            return true;
        }
        proof {
            assert(rest.skip(e - pos + 1) =~= host@.skip(e + 1));
        }
        pos = e + 1;
    }
}

/// Whether `target` is a `host:port` latency probe address.
pub fn valid_target(target: &str) -> (r: bool)
    ensures
        r == target_ok(target@),
{
    let t = chars_of(target);
    if t.len() == 0 || t.len() > 255 {
        return false;
    }
    let mut i: usize = 0;
    while i < t.len()
        invariant
            i <= t.len(),
            t@ == target@,
            forall|j: int| 0 <= j < i ==> is_ascii_char(t@[j]),
        decreases t.len() - i,
    {
        if (t[i] as u32) >= 0x80 {
            return false;
        }
        i = i + 1;
    }
    let (host, port) = match rsplit_once_at(&t, ':') {
        Some(parts) => parts,
        None => return false,
    };
    match parse_u16(&port) {
        Some(p) => {
            if p == 0 {
                return false;
            }
        },
        None => return false,
    }
    if host.len() > 0 && host[0] == '[' && host[host.len() - 1] == ']' {
        proof {
            assert(host@.take(1) =~= seq!['[']);
            assert(host@.skip(host@.len() - 1) =~= seq![']']);
            assert(host@.len() >= 2);
        }
        let inner = slice_chars(&host, 1, host.len() - 1);
        let text = string_of(&inner);
        parses_as_ipv6(text.as_str())
    } else {
        proof {
            if host@.len() > 0 && has_prefix(host@, seq!['[']) && has_suffix(host@, seq![']']) {
                assert(host@.take(1)[0] == host@[0]);
                assert(host@.skip(host@.len() - 1)[0] == host@[host@.len() - 1]);
            }
        }
        valid_hostname_chars(&host)
    }
}

/// `u16::from_str`.
fn parse_u16(v: &Vec<char>) -> (r: Option<u16>)
    ensures
        match parse_unsigned(v@, 65535) {
            Some(n) => r == Some(n as u16),
            None => r is None,
        },
{
    match parse_u64(v) {
        Some(n) => {
            if n <= 65535 {
                Some(n as u16)
            } else {
                None
            }
        },
        None => None,
    }
}

/// The addresses that the agent probes, and how often.
#[derive(Debug, Clone, PartialEq, Eq)]
pub struct LatencyTargets {
    pub telecom: String,
    pub unicom: String,
    pub mobile: String,
    pub interval_seconds: u64,
}

impl LatencyTargets {
    /// The values that decide whether two target sets are the same.
    pub open spec fn model(self) -> (Seq<char>, Seq<char>, Seq<char>, u64) {
        (self.telecom@, self.unicom@, self.mobile@, self.interval_seconds)
    }

    /// Whether `self` and `other` hold the same targets and interval.
    pub fn same_as(&self, other: &LatencyTargets) -> (r: bool)
        ensures
            r == (self.model() == other.model()),
    {
        self.interval_seconds == other.interval_seconds && same_name(&self.telecom, &other.telecom)
            && same_name(&self.unicom, &other.unicom) && same_name(&self.mobile, &other.mobile)
    }
}

pub open spec fn targets_ok(t: LatencyTargets) -> bool {
    &&& target_ok(t.telecom@)
    &&& target_ok(t.unicom@)
    &&& target_ok(t.mobile@)
}

/// Whether all three targets are valid `host:port` addresses.
pub fn valid_targets(targets: &LatencyTargets) -> (r: bool)
    ensures
        r == targets_ok(*targets),
{
    valid_target(targets.telecom.as_str()) && valid_target(targets.unicom.as_str())
        && valid_target(targets.mobile.as_str())
}

impl Default for LatencyTargets {
    fn default() -> (r: Self)
        ensures
            r.telecom@ == "ha-ct-v4.ip.zstaticcdn.com:80"@,
            r.unicom@ == "ha-cu-v4.ip.zstaticcdn.com:80"@,
            r.mobile@ == "ha-cm-v4.ip.zstaticcdn.com:80"@,
            r.interval_seconds == DEFAULT_LATENCY_INTERVAL_SECS,
    {
        LatencyTargets {
            telecom: "ha-ct-v4.ip.zstaticcdn.com:80".to_owned(),
            unicom: "ha-cu-v4.ip.zstaticcdn.com:80".to_owned(),
            mobile: "ha-cm-v4.ip.zstaticcdn.com:80".to_owned(),
            interval_seconds: DEFAULT_LATENCY_INTERVAL_SECS,
        }
    }
}

/// Texts of the status page.
#[derive(Debug, Clone)]
pub struct SiteSettings {
    pub name: String,
    pub description: String,
    pub footer: String,
}

impl Default for SiteSettings {
    fn default() -> (r: Self)
        ensures
            r.name@ == "Monitor"@,
            r.description@ == "服务器状态"@,
            r.footer@ == Seq::<char>::empty(),
    {
        SiteSettings {
            name: "Monitor".to_owned(),
            description: "服务器状态".to_owned(),
            footer: String::new(),
        }
    }
}

/// Settings kept by the server: latency targets, their revision and site texts.
#[derive(Debug, Clone)]
pub struct AppSettings {
    pub latency: LatencyTargets,
    pub latency_revision: u64,
    pub site: SiteSettings,
}

impl Default for AppSettings {
    fn default() -> (r: Self)
        ensures
            r.latency.telecom@ == "ha-ct-v4.ip.zstaticcdn.com:80"@,
            r.latency.unicom@ == "ha-cu-v4.ip.zstaticcdn.com:80"@,
            r.latency.mobile@ == "ha-cm-v4.ip.zstaticcdn.com:80"@,
            r.latency.interval_seconds == DEFAULT_LATENCY_INTERVAL_SECS,
            r.latency_revision == 0,
            r.site.name@ == "Monitor"@,
            r.site.description@ == "服务器状态"@,
            r.site.footer@ == Seq::<char>::empty(),
    {
        AppSettings {
            latency: LatencyTargets::default(),
            latency_revision: 0,
            site: SiteSettings::default(),
        }
    }
}

/// Messages from the server to an agent.
#[derive(Debug, Clone)]
pub enum ServerMessage {
    LatencyTargets { targets: LatencyTargets, revision: u64 },
}

/// Answer of the health endpoint.
#[derive(Debug, Clone)]
pub struct HealthResponse {
    pub status: &'static str,
    pub version: &'static str,
}

} // verus!
