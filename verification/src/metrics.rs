//! Counts of requests and of the time spent on them.
use vstd::prelude::*;

verus! {

/// A report is due each time this many more requests have been counted.
pub const REPORT_EVERY: u64 = 10000;

/// The stages of a request whose time is measured, and the whole of it.
#[derive(Clone, Copy, Debug, PartialEq, Eq, Structural)]
pub enum Stage {
    JsonParse,
    Vectorize,
    CentroidSearch,
    ClusterScan,
    Total,
}

/// The time spent in each stage, in nanoseconds, and the requests counted.
#[derive(Clone, Copy, Debug, PartialEq, Eq, Structural)]
pub struct Metrics {
    pub json_parse_ns: u64,
    pub vectorize_ns: u64,
    pub centroid_search_ns: u64,
    pub cluster_scan_ns: u64,
    pub total_ns: u64,
    pub count: u64,
}

/// A sum of nanoseconds; it wraps around in 64 bits.
pub open spec fn time_sum(a: u64, b: u64) -> u64 {
    ((a + b) % 0x1_0000_0000_0000_0000) as u64
}

/// Whether a report is due at this count of requests.
pub open spec fn report_due(count: u64) -> bool {
    count % REPORT_EVERY == 0
}

/// What there is to average: nothing before the first request.
pub open spec fn averageable(metrics: Metrics) -> Option<Metrics> {
    if metrics.count == 0 {
        None
    } else {
        Some(metrics)
    }
}

impl Metrics {
    /// The time spent in a stage.
    pub open spec fn time_in(&self, stage: Stage) -> u64 {
        match stage {
            Stage::JsonParse => self.json_parse_ns,
            Stage::Vectorize => self.vectorize_ns,
            Stage::CentroidSearch => self.centroid_search_ns,
            Stage::ClusterScan => self.cluster_scan_ns,
            Stage::Total => self.total_ns,
        }
    }

    /// Nothing counted yet.
    pub fn new() -> (r: Metrics)
        ensures
            r.count == 0,
            forall|stage: Stage| #[trigger] r.time_in(stage) == 0,
    {
        Metrics {
            json_parse_ns: 0,
            vectorize_ns: 0,
            centroid_search_ns: 0,
            cluster_scan_ns: 0,
            total_ns: 0,
            count: 0,
        }
    }

    /// Adds the time that a request spent in a stage.
    pub fn record(&mut self, stage: Stage, ns: u64)
        ensures
            final(self).count == old(self).count,
            final(self).time_in(stage) == time_sum(old(self).time_in(stage), ns),
            forall|other: Stage|
                other != stage ==> #[trigger] final(self).time_in(other) == old(self).time_in(
                    other,
                ),
    {
        match stage {
            Stage::JsonParse => {
                self.json_parse_ns = self.json_parse_ns.wrapping_add(ns);
            },
            Stage::Vectorize => {
                self.vectorize_ns = self.vectorize_ns.wrapping_add(ns);
            },
            Stage::CentroidSearch => {
                self.centroid_search_ns = self.centroid_search_ns.wrapping_add(ns);
            },
            Stage::ClusterScan => {
                self.cluster_scan_ns = self.cluster_scan_ns.wrapping_add(ns);
            },
            Stage::Total => {
                self.total_ns = self.total_ns.wrapping_add(ns);
            },
        }
    }

    /// Counts a request that was answered, and tells whether a report is due.
    pub fn count_request(&mut self) -> (due: bool)
        requires
            old(self).count < u64::MAX,
        ensures
            final(self).count == old(self).count + 1,
            forall|stage: Stage| #[trigger] final(self).time_in(stage) == old(self).time_in(stage),
            due <==> final(self).count % REPORT_EVERY == 0,
            due == report_due(final(self).count),
    {
        self.count = self.count + 1;
        self.count % REPORT_EVERY == 0
    }

    /// The counters to average, once there is a request to divide by.
    pub fn to_average(&self) -> (r: Option<Metrics>)
        ensures
            r == if self.count == 0 {
                None
            } else {
                Some(*self)
            },
            r == averageable(*self),
    {
        if self.count == 0 {
            None
        } else {
            Some(*self)
        }
    }
}

/// Times add up, and go round where the sum does not fit in 64 bits. The order in
/// which times are added makes no difference.
pub proof fn times_add_up(a: u64, b: u64, c: u64)
    ensures
        a + b <= u64::MAX ==> time_sum(a, b) == a + b,
        a + b > u64::MAX ==> time_sum(a, b) == a + b - 0x1_0000_0000_0000_0000,
        time_sum(a, b) == time_sum(b, a),
        time_sum(time_sum(a, b), c) == time_sum(a, time_sum(b, c)),
{
}

/// Each stage has a counter of its own.
pub proof fn stages_have_their_own_counters(metrics: Metrics)
    ensures
        metrics.time_in(Stage::JsonParse) == metrics.json_parse_ns,
        metrics.time_in(Stage::Vectorize) == metrics.vectorize_ns,
        metrics.time_in(Stage::CentroidSearch) == metrics.centroid_search_ns,
        metrics.time_in(Stage::ClusterScan) == metrics.cluster_scan_ns,
        metrics.time_in(Stage::Total) == metrics.total_ns,
{
}

/// Reports are due at the multiples of ten thousand and at no other count.
pub proof fn reports_are_due_every_ten_thousand(count: u64)
    ensures
        report_due(count) <==> exists|k: int| #[trigger] (10000 * k) == count,
{
    if report_due(count) {
        assert(10000 * (count as int / 10000) == count);
    }
}

/// Once a request has been counted all counters are there to average, unchanged.
pub proof fn averages_need_a_request(metrics: Metrics)
    ensures
        averageable(metrics) is None <==> metrics.count == 0,
        metrics.count > 0 ==> averageable(metrics) == Some(metrics),
{
}

} // verus!
