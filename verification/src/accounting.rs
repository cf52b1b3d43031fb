//! Traffic accounting of a node from successive agent reports: baselines,
//! reboots, counter resets, UTC day and month totals, latency rounds and
//! once-a-minute resource samples.
use vstd::prelude::*;

use crate::external::{day_key, month_key, utc_day_key, utc_month_key};
use crate::model::{delta_of, network_delta, sat_add, NetworkCounter, OFFLINE_AFTER_SECS};
use crate::text::same_text;

verus! {

/// Growth of a node-wide counter between two reports: nothing before a
/// baseline exists, the difference within one boot (never negative), and the
/// whole new counter after a reboot.
pub open spec fn traffic_growth(
    previous_boot: Seq<char>,
    previous: u64,
    boot: Seq<char>,
    current: u64,
) -> u64 {
    if previous_boot.len() == 0 {
        0
    } else if previous_boot == boot {
        if current >= previous {
            (current - previous) as u64
        } else {
            0
        }
    } else {
        current
    }
}

pub fn traffic_delta(previous_boot: &str, previous: u64, boot: &str, current: u64) -> (r: u64)
    ensures
        r == traffic_growth(previous_boot@, previous, boot@, current),
{
    if previous_boot.is_empty() {
        0
    } else if same_text(previous_boot, boot) {
        current.saturating_sub(previous)
    } else {
        current
    }
}

/// The traffic counters that one agent report carries.
#[derive(Debug, Clone)]
pub struct ReportCounters {
    pub boot_id: String,
    pub net_rx_total: u64,
    pub net_tx_total: u64,
    pub network: Vec<NetworkCounter>,
}

/// Recorded traffic of one node.
#[derive(Debug, Clone)]
pub struct TrafficState {
    /// Boot of the last report; empty until the first report.
    pub boot_id: String,
    pub last_rx_counter: u64,
    pub last_tx_counter: u64,
    pub total_rx: u64,
    pub total_tx: u64,
    pub month_key: String,
    pub month_rx: u64,
    pub month_tx: u64,
    pub day_key: String,
    pub day_rx: u64,
    pub day_tx: u64,
    /// Interface counters of the last report.
    pub network: Vec<NetworkCounter>,
}

/// Traffic that a report adds: per interface while the boot is unchanged and
/// the report lists interfaces, otherwise from the node-wide counters.
pub open spec fn report_delta(state: TrafficState, report: ReportCounters) -> (u64, u64) {
    if state.boot_id@.len() == 0 {
        (0, 0)
    } else if state.boot_id@ == report.boot_id@ && report.network@.len() > 0 {
        delta_of(state.network@, report.network@)
    } else {
        (
            traffic_growth(
                state.boot_id@,
                state.last_rx_counter,
                report.boot_id@,
                report.net_rx_total,
            ),
            traffic_growth(
                state.boot_id@,
                state.last_tx_counter,
                report.boot_id@,
                report.net_tx_total,
            ),
        )
    }
}

pub fn report_traffic_delta(state: &TrafficState, report: &ReportCounters) -> (r: (u64, u64))
    ensures
        r == report_delta(*state, *report),
{
    if state.boot_id.as_str().is_empty() {
        return (0, 0);
    }
    if same_text(state.boot_id.as_str(), report.boot_id.as_str()) && report.network.len() > 0 {
        return network_delta(state.network.as_slice(), report.network.as_slice());
    }
    (
        traffic_delta(
            state.boot_id.as_str(),
            state.last_rx_counter,
            report.boot_id.as_str(),
            report.net_rx_total,
        ),
        traffic_delta(
            state.boot_id.as_str(),
            state.last_tx_counter,
            report.boot_id.as_str(),
            report.net_tx_total,
        ),
    )
}

/// A period total carried into `key`: kept when the period is the same, else restarted.
pub open spec fn carried(stored_key: Seq<char>, key: Seq<char>, value: u64) -> u64 {
    if stored_key == key {
        value
    } else {
        0
    }
}

/// Totals of a node as shown at a moment.
#[derive(Debug, Clone, Copy)]
pub struct PeriodTotals {
    pub total_rx: u64,
    pub total_tx: u64,
    pub month_rx: u64,
    pub month_tx: u64,
    pub day_rx: u64,
    pub day_tx: u64,
}

/// `after` is `before` with `report` recorded in UTC month `month` and UTC
/// day `day`, adding `delta`: the totals grow by `delta` (saturating), a
/// month or day total of another period restarts from zero, and the
/// report's counters become the baseline.
pub open spec fn recorded(
    before: TrafficState,
    after: TrafficState,
    report: ReportCounters,
    month: Seq<char>,
    day: Seq<char>,
    delta: (u64, u64),
) -> bool {
    &&& delta == report_delta(before, report)
    &&& after.total_rx == sat_add(before.total_rx, delta.0)
    &&& after.total_tx == sat_add(before.total_tx, delta.1)
    &&& after.month_key@ == month
    &&& after.month_rx == sat_add(carried(before.month_key@, month, before.month_rx), delta.0)
    &&& after.month_tx == sat_add(carried(before.month_key@, month, before.month_tx), delta.1)
    &&& after.day_key@ == day
    &&& after.day_rx == sat_add(carried(before.day_key@, day, before.day_rx), delta.0)
    &&& after.day_tx == sat_add(carried(before.day_key@, day, before.day_tx), delta.1)
    &&& after.last_rx_counter == report.net_rx_total
    &&& after.last_tx_counter == report.net_tx_total
    &&& after.boot_id@ == report.boot_id@
    &&& after.network@ == report.network@
}

/// The totals of `state` as shown in UTC month `month` and UTC day `day`.
pub open spec fn totals_in(state: TrafficState, month: Seq<char>, day: Seq<char>) -> PeriodTotals {
    PeriodTotals {
        total_rx: state.total_rx,
        total_tx: state.total_tx,
        month_rx: carried(state.month_key@, month, state.month_rx),
        month_tx: carried(state.month_key@, month, state.month_tx),
        day_rx: carried(state.day_key@, day, state.day_rx),
        day_tx: carried(state.day_key@, day, state.day_tx),
    }
}

impl TrafficState {
    /// A node that has not reported yet.
    pub fn new() -> (r: TrafficState)
        ensures
            r.boot_id@.len() == 0,
            r.month_key@.len() == 0,
            r.day_key@.len() == 0,
            r.network@.len() == 0,
            r.last_rx_counter == 0 && r.last_tx_counter == 0,
            r.total_rx == 0 && r.total_tx == 0,
            r.month_rx == 0 && r.month_tx == 0,
            r.day_rx == 0 && r.day_tx == 0,
    {
        TrafficState {
            boot_id: String::new(),
            last_rx_counter: 0,
            last_tx_counter: 0,
            total_rx: 0,
            total_tx: 0,
            month_key: String::new(),
            month_rx: 0,
            month_tx: 0,
            day_key: String::new(),
            day_rx: 0,
            day_tx: 0,
            network: Vec::new(),
        }
    }

    /// Adds what `report` shows to the totals, in UTC month `month` and UTC
    /// day `day`: a month or day total of another period restarts from zero.
    /// The report's counters become the next baseline.
    pub fn record_in(&mut self, report: ReportCounters, month: String, day: String) -> (delta: (
        u64,
        u64,
    ))
        ensures
            recorded(*old(self), *final(self), report, month@, day@, delta),
    {
        let (delta_rx, delta_tx) = report_traffic_delta(self, &report);
        if !same_text(self.month_key.as_str(), month.as_str()) {
            self.month_key = month;
            self.month_rx = 0;
            self.month_tx = 0;
        }
        if !same_text(self.day_key.as_str(), day.as_str()) {
            self.day_key = day;
            self.day_rx = 0;
            self.day_tx = 0;
        }
        self.total_rx = self.total_rx.saturating_add(delta_rx);
        self.total_tx = self.total_tx.saturating_add(delta_tx);
        self.month_rx = self.month_rx.saturating_add(delta_rx);
        self.month_tx = self.month_tx.saturating_add(delta_tx);
        self.day_rx = self.day_rx.saturating_add(delta_rx);
        self.day_tx = self.day_tx.saturating_add(delta_tx);
        self.last_rx_counter = report.net_rx_total;
        self.last_tx_counter = report.net_tx_total;
        self.boot_id = report.boot_id;
        self.network = report.network;
        (delta_rx, delta_tx)
    }

    /// Adds what `report` shows at `now` to the totals, in the UTC month and
    /// day of `now` (see `record_in`).
    pub fn record(&mut self, report: ReportCounters, now: i64) -> (delta: (u64, u64))
        ensures
            recorded(*old(self), *final(self), report, utc_month_key(now), utc_day_key(now), delta),
    {
        let month = month_key(now);
        let day = day_key(now);
        self.record_in(report, month, day)
    }

    /// The totals as shown in UTC month `month` and UTC day `day`: month and
    /// day totals of another period show as zero.
    pub fn view_in(&self, month: &str, day: &str) -> (r: PeriodTotals)
        ensures
            r == totals_in(*self, month@, day@),
    {
        let month_matches = same_text(self.month_key.as_str(), month);
        let day_matches = same_text(self.day_key.as_str(), day);
        PeriodTotals {
            total_rx: self.total_rx,
            total_tx: self.total_tx,
            month_rx: if month_matches {
                self.month_rx
            } else {
                0
            },
            month_tx: if month_matches {
                self.month_tx
            } else {
                0
            },
            day_rx: if day_matches {
                self.day_rx
            } else {
                0
            },
            day_tx: if day_matches {
                self.day_tx
            } else {
                0
            },
        }
    }

    /// The totals as shown at `now`, in the UTC month and day of `now`.
    pub fn view_at(&self, now: i64) -> (r: PeriodTotals)
        ensures
            r == totals_in(*self, utc_month_key(now), utc_day_key(now)),
    {
        let month = month_key(now);
        let day = day_key(now);
        self.view_in(month.as_str(), day.as_str())
    }
}

/// Whether a node shows as online: connected, with metrics, and last seen
/// within the last `OFFLINE_AFTER_SECS` seconds (not in the future).
pub open spec fn online(connected: bool, has_metrics: bool, last_seen: i64, now: i64) -> bool {
    connected && has_metrics && 0 <= now - last_seen <= OFFLINE_AFTER_SECS
}

pub fn node_online(connected: bool, has_metrics: bool, last_seen: i64, now: i64) -> (r: bool)
    requires
        i64::MIN <= now - last_seen <= i64::MAX,
    ensures
        r == online(connected, has_metrics, last_seen, now),
{
    let age = now - last_seen;
    connected && has_metrics && 0 <= age && age <= OFFLINE_AFTER_SECS
}

/// The identity of one latency round.
#[derive(Debug, Clone, Copy, PartialEq, Eq)]
pub struct SampleTag {
    pub id: u64,
    pub revision: u64,
}

/// A reported latency round becomes history when it was measured against the
/// current target revision and is not the round recorded last.
pub open spec fn sample_is_new(sample: Option<SampleTag>, previous: Option<SampleTag>, revision: u64) -> bool {
    match sample {
        Some(s) => s.revision == revision && match previous {
            Some(p) => p.id != s.id,
            None => true,
        },
        None => false,
    }
}

pub fn accept_latency_sample(
    sample: Option<SampleTag>,
    previous: Option<SampleTag>,
    revision: u64,
) -> (r: bool)
    ensures
        r == sample_is_new(sample, previous, revision),
{
    match sample {
        Some(s) => s.revision == revision && match previous {
            Some(p) => p.id != s.id,
            None => true,
        },
        None => false,
    }
}

/// The minute that contains `timestamp` (seconds, rounded towards minus infinity).
pub fn minute_of(timestamp: i64) -> (m: i64)
    ensures
        m == timestamp / 60,
{
    if timestamp >= 0 {
        timestamp / 60
    } else {
        let t = -(timestamp + 1);
        assert(timestamp / 60 == -(t / 60) - 1) by (nonlinear_arith)
            requires
                t == -(timestamp + 1),
                timestamp < 0,
        ;
        -(t / 60) - 1
    }
}

/// The latency round remembered after a report.
pub open spec fn latency_after(
    previous: Option<SampleTag>,
    sample: Option<SampleTag>,
    revision: u64,
) -> Option<SampleTag> {
    if sample_is_new(sample, previous, revision) {
        sample
    } else {
        previous
    }
}

/// A resource sample is due when a report falls in a later minute than the
/// last stored sample.
pub open spec fn sample_due(last_minute: int, now: i64) -> bool {
    now / 60 > last_minute
}

/// The minute of the last stored sample after a report at `now`.
pub open spec fn next_sample_minute(last_minute: int, now: i64) -> int {
    if sample_due(last_minute, now) {
        now / 60
    } else {
        last_minute
    }
}

/// Accounting state of a node between reports.
#[derive(Debug, Clone)]
pub struct NodeProgress {
    pub traffic: TrafficState,
    pub last_seen: i64,
    /// Minute of the last stored resource sample.
    pub last_sample_minute: i64,
    /// The latency round recorded last.
    pub latency_sample: Option<SampleTag>,
}

/// What the server does with an accepted report.
#[derive(Debug, Clone, Copy)]
pub struct ReportOutcome {
    pub delta_rx: u64,
    pub delta_tx: u64,
    /// The report's latency round is new history.
    pub record_latency: bool,
    /// A resource sample is due for this minute.
    pub write_sample: bool,
}

impl NodeProgress {
    /// Applies a report received at `now`, in UTC month `month` and UTC day
    /// `day`, while the latency targets are at `revision`.
    pub fn apply_report_in(
        &mut self,
        counters: ReportCounters,
        sample: Option<SampleTag>,
        revision: u64,
        now: i64,
        month: String,
        day: String,
    ) -> (r: ReportOutcome)
        ensures
            recorded(
                old(self).traffic,
                final(self).traffic,
                counters,
                month@,
                day@,
                (r.delta_rx, r.delta_tx),
            ),
            r.record_latency == sample_is_new(sample, old(self).latency_sample, revision),
            final(self).latency_sample == latency_after(old(self).latency_sample, sample, revision),
            r.write_sample == sample_due(old(self).last_sample_minute as int, now),
            final(self).last_sample_minute == next_sample_minute(
                old(self).last_sample_minute as int,
                now,
            ),
            final(self).last_seen == now,
    {
        let record_latency = accept_latency_sample(sample, self.latency_sample, revision);
        if record_latency {
            self.latency_sample = sample;
        }
        let (delta_rx, delta_tx) = self.traffic.record_in(counters, month, day);
        self.last_seen = now;
        let minute = minute_of(now);
        let write_sample = minute > self.last_sample_minute;
        if write_sample {
            self.last_sample_minute = minute;
        }
        ReportOutcome { delta_rx, delta_tx, record_latency, write_sample }
    }

    /// Applies a report received at `now`, in the UTC month and day of `now`,
    /// while the latency targets are at `revision` (see `apply_report_in`).
    pub fn apply_report(
        &mut self,
        counters: ReportCounters,
        sample: Option<SampleTag>,
        revision: u64,
        now: i64,
    ) -> (r: ReportOutcome)
        ensures
            recorded(
                old(self).traffic,
                final(self).traffic,
                counters,
                utc_month_key(now),
                utc_day_key(now),
                (r.delta_rx, r.delta_tx),
            ),
            r.record_latency == sample_is_new(sample, old(self).latency_sample, revision),
            final(self).latency_sample == latency_after(old(self).latency_sample, sample, revision),
            r.write_sample == sample_due(old(self).last_sample_minute as int, now),
            final(self).last_sample_minute == next_sample_minute(
                old(self).last_sample_minute as int,
                now,
            ),
            final(self).last_seen == now,
    {
        let month = month_key(now);
        let day = day_key(now);
        self.apply_report_in(counters, sample, revision, now, month, day)
    }
}

// ---------------------------------------------------------------------------
// Laws
// ---------------------------------------------------------------------------

/// What one recording does to the totals, in plain arithmetic: the all-time
/// totals grow by the added traffic up to `u64::MAX`; a UTC day (or month)
/// other than the stored one restarts the day (or month) totals, which then
/// hold exactly the added traffic, whatever the other key is; the same day
/// (or month) adds to what it held, up to `u64::MAX`. The keys become the
/// given period.
pub proof fn law_recording_restarts_new_periods(
    before: TrafficState,
    after: TrafficState,
    report: ReportCounters,
    month: Seq<char>,
    day: Seq<char>,
    delta: (u64, u64),
)
    requires
        recorded(before, after, report, month, day, delta),
    ensures
        after.day_key@ == day,
        after.month_key@ == month,
        before.day_key@ != day ==> after.day_rx == delta.0 && after.day_tx == delta.1,
        before.month_key@ != month ==> after.month_rx == delta.0 && after.month_tx == delta.1,
        before.day_key@ == day ==> after.day_rx as int == if before.day_rx + delta.0 > u64::MAX {
            u64::MAX as int
        } else {
            before.day_rx + delta.0
        } && after.day_tx as int == if before.day_tx + delta.1 > u64::MAX {
            u64::MAX as int
        } else {
            before.day_tx + delta.1
        },
        before.month_key@ == month ==> after.month_rx as int == if before.month_rx + delta.0
            > u64::MAX {
            u64::MAX as int
        } else {
            before.month_rx + delta.0
        } && after.month_tx as int == if before.month_tx + delta.1 > u64::MAX {
            u64::MAX as int
        } else {
            before.month_tx + delta.1
        },
        after.total_rx as int == if before.total_rx + delta.0 > u64::MAX {
            u64::MAX as int
        } else {
            before.total_rx + delta.0
        },
        after.total_tx as int == if before.total_tx + delta.1 > u64::MAX {
            u64::MAX as int
        } else {
            before.total_tx + delta.1
        },
{
}

/// The totals shown in a UTC day other than the stored one show no day
/// traffic, and in another month no month traffic; in the stored day and
/// month they show what was recorded.
pub proof fn law_view_shows_current_periods(state: TrafficState, month: Seq<char>, day: Seq<char>)
    ensures
        state.day_key@ != day ==> totals_in(state, month, day).day_rx == 0 && totals_in(
            state,
            month,
            day,
        ).day_tx == 0,
        state.day_key@ == day ==> totals_in(state, month, day).day_rx == state.day_rx && totals_in(
            state,
            month,
            day,
        ).day_tx == state.day_tx,
        state.month_key@ != month ==> totals_in(state, month, day).month_rx == 0 && totals_in(
            state,
            month,
            day,
        ).month_tx == 0,
        state.month_key@ == month ==> totals_in(state, month, day).month_rx == state.month_rx
            && totals_in(state, month, day).month_tx == state.month_tx,
        totals_in(state, month, day).total_rx == state.total_rx,
        totals_in(state, month, day).total_tx == state.total_tx,
{
}

/// The first report of a node only sets a baseline: it adds no traffic.
pub proof fn law_first_report_is_baseline(state: TrafficState, report: ReportCounters)
    requires
        state.boot_id@.len() == 0,
    ensures
        report_delta(state, report) == (0u64, 0u64),
{
}

/// After a reboot the new boot's counters count in full, so recorded traffic
/// survives the restart and keeps growing.
pub proof fn law_reboot_counts_new_counters(state: TrafficState, report: ReportCounters)
    requires
        state.boot_id@.len() > 0,
        state.boot_id@ != report.boot_id@,
    ensures
        report_delta(state, report) == (report.net_rx_total, report.net_tx_total),
{
}

/// Within one boot, node-wide counters that went backwards add nothing.
pub proof fn law_counter_regression_adds_nothing(boot: Seq<char>, previous: u64, current: u64)
    requires
        boot.len() > 0,
        current <= previous,
    ensures
        traffic_growth(boot, previous, boot, current) == 0,
{
}

/// Recorded totals never decrease.
pub proof fn law_totals_never_decrease(total: u64, delta: u64)
    ensures
        sat_add(total, delta) >= total,
{
}

/// A month or day total of another period than the current one shows as zero,
/// and within the period the total grows by exactly the added traffic until
/// it saturates.
pub proof fn law_period_totals(stored_key: Seq<char>, key: Seq<char>, value: u64, delta: u64)
    ensures
        stored_key != key ==> carried(stored_key, key, value) == 0,
        stored_key != key ==> sat_add(carried(stored_key, key, value), delta) == delta,
        stored_key == key && value + delta <= u64::MAX ==> sat_add(
            carried(stored_key, key, value),
            delta,
        ) == value + delta,
{
}

/// A latency round is recorded at most once: once a report's round was taken
/// (or refused), the same round in a later report is not taken again; and a
/// round measured against other targets is never taken.
pub proof fn law_latency_round_recorded_once(
    previous: Option<SampleTag>,
    sample: Option<SampleTag>,
    revision: u64,
)
    ensures
        !sample_is_new(sample, latency_after(previous, sample, revision), revision),
        sample matches Some(s) && s.revision != revision ==> !sample_is_new(
            sample,
            previous,
            revision,
        ),
{
}

/// At most one resource sample is stored per minute: after a report at
/// `first`, a report at `second` within the same minute stores none, while a
/// report in a later minute always does.
pub proof fn law_one_sample_per_minute(last_minute: int, first: i64, second: i64)
    ensures
        second / 60 == first / 60 ==> !sample_due(
            next_sample_minute(last_minute, first),
            second,
        ),
        second / 60 > first / 60 && last_minute <= first / 60 ==> sample_due(
            next_sample_minute(last_minute, first),
            second,
        ),
{
}

} // verus!
