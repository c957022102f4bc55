//! What a load test measures, and how it is reported.
use crate::text::{cat2, decimal, decimal_text, same_text};
use vstd::prelude::*;
use vstd::string::*;

verus! {

broadcast use vstd::string::group_string_axioms;

/// How many latencies are kept at most.
pub const MAX_SAMPLES: usize = 10_000;

/// How many of the oldest latencies go when there are too many.
pub const DROPPED_SAMPLES: usize = 5_000;

/// What was sent, answered and measured. Latencies are in nanoseconds. Each counter
/// wraps around at its end.
#[derive(Debug)]
pub struct Metrics {
    pub requests_sent: u64,
    pub requests_success: u64,
    pub requests_failed: u64,
    pub bytes_downloaded: u64,
    pub playlist_fetches: u64,
    pub segment_fetches: u64,
    pub cache_hits: u64,
    pub cache_misses: u64,
    pub active_viewers: usize,
    pub latencies: Vec<u128>,
}

/// What was sent, answered and measured.
pub struct MetricsView {
    pub requests_sent: u64,
    pub requests_success: u64,
    pub requests_failed: u64,
    pub bytes_downloaded: u64,
    pub playlist_fetches: u64,
    pub segment_fetches: u64,
    pub cache_hits: u64,
    pub cache_misses: u64,
    pub active_viewers: usize,
    pub latencies: Seq<u128>,
}

/// A figure of the report: what it is computed from.
#[derive(Debug, Clone, Copy, PartialEq, Eq)]
pub enum Figure {
    /// Seconds, with one digit after the point.
    Seconds { nanos: u128 },
    /// A share in percent, with two digits after the point.
    Percent { part: u64, whole: u64 },
    /// Megabytes, with two digits after the point.
    Megabytes { bytes: u64 },
    /// Megabytes per second, with two digits after the point.
    MegabytesPerSecond { bytes: u64, nanos: u128 },
    /// Milliseconds, with one digit after the point.
    Millis { nanos: u128 },
    /// A number per second, with one digit after the point.
    PerSecond { count: u64, nanos: u128 },
}

/// A line of the report.
#[derive(Debug, Clone, PartialEq)]
pub enum ReportLine {
    /// A heading, after an empty line.
    Heading(String),
    /// A whole number with its name before it.
    Count(String),
    /// A name and the figure that stands behind it.
    Figure { name: String, figure: Figure },
}

/// What a line of the report says.
pub enum LineView {
    Heading(Seq<char>),
    Count(Seq<char>),
    Figure { name: Seq<char>, figure: Figure },
}

impl View for ReportLine {
    type V = LineView;

    open spec fn view(&self) -> LineView {
        match self {
            ReportLine::Heading(s) => LineView::Heading(s@),
            ReportLine::Count(s) => LineView::Count(s@),
            ReportLine::Figure { name, figure } => LineView::Figure { name: name@, figure: *figure },
        }
    }
}

/// What the lines of a report say.
pub open spec fn lines_said(v: Seq<ReportLine>) -> Seq<LineView> {
    v.map_values(|l: ReportLine| l@)
}

/// The numbers of `a` in ascending order.
pub open spec fn is_sorting(s: Seq<u128>, a: Seq<u128>) -> bool {
    &&& s.to_multiset() == a.to_multiset()
    &&& forall|i: int, j: int| 0 <= i <= j < s.len() ==> s[i] <= s[j]
}

/// The place of a percentile among `n` ascending numbers.
pub open spec fn rank(n: int, percent: int) -> int {
    n * percent / 100
}

/// The middle, the 95th and the 99th percentile of ascending numbers; zeros of none.
pub open spec fn percentiles_of(s: Seq<u128>) -> (u128, u128, u128) {
    if s.len() == 0 {
        (0, 0, 0)
    } else {
        (s[s.len() as int / 2], s[rank(s.len() as int, 95)], s[rank(s.len() as int, 99)])
    }
}

/// `sort_unstable` of the standard library's slices puts the numbers in ascending order;
/// none is lost or added.
#[verifier::external_body]
fn sort_numbers(v: &mut Vec<u128>)
    ensures
        is_sorting(final(v)@, old(v)@),
{
    v.sort_unstable();
}

/// There is only one ascending order of the same numbers.
pub proof fn lemma_sorting_is_unique(s: Seq<u128>, t: Seq<u128>, a: Seq<u128>)
    requires
        is_sorting(s, a),
        is_sorting(t, a),
    ensures
        s == t,
        s.len() == a.len(),
    decreases s.len(),
{
    broadcast use vstd::seq_lib::group_to_multiset_ensures;

    assert(s.to_multiset().len() == s.len());
    assert(t.to_multiset().len() == t.len());
    assert(a.to_multiset().len() == a.len());
    if s.len() == 0 {
        assert(t.to_multiset().len() == 0);
        assert(s =~= t);
    } else {
        assert(t.len() == s.len());
        assert(s.to_multiset().count(s.last()) > 0) by {
            assert(s.contains(s[s.len() - 1]));
        }
        assert(t.to_multiset().count(t.last()) > 0) by {
            assert(t.contains(t[t.len() - 1]));
        }
        assert(t.contains(s.last()));
        assert(s.contains(t.last()));
        let i = t.index_of(s.last());
        let j = s.index_of(t.last());
        assert(t[i] <= t[t.len() - 1]);
        assert(s[j] <= s[s.len() - 1]);
        assert(s.last() == t.last());
        let x = s.last();
        let s1 = s.drop_last();
        let t1 = t.drop_last();
        assert(s1.push(x) =~= s);
        assert(t1.push(x) =~= t);
        assert(s.to_multiset() =~= s1.to_multiset().insert(x));
        assert(t.to_multiset() =~= t1.to_multiset().insert(x));
        assert(s1.to_multiset() =~= s.to_multiset().remove(x));
        assert(t1.to_multiset() =~= t.to_multiset().remove(x));
        assert forall|p: int, q: int| 0 <= p <= q < s1.len() implies s1[p] <= s1[q] by {
            assert(s[p] <= s[q]);
        }
        assert forall|p: int, q: int| 0 <= p <= q < t1.len() implies t1[p] <= t1[q] by {
            assert(t[p] <= t[q]);
        }
        lemma_sorting_is_unique(s1, t1, s1);
    }
}

impl MetricsView {
    /// No more latencies than are kept.
    pub open spec fn bounded(self) -> bool {
        self.latencies.len() <= MAX_SAMPLES
    }

    /// One more latency; half of them go where there are too many.
    pub open spec fn timed(self, nanos: u128) -> MetricsView {
        let all = self.latencies.push(nanos);
        MetricsView {
            latencies: if all.len() > MAX_SAMPLES {
                all.skip(DROPPED_SAMPLES as int)
            } else {
                all
            },
            ..self
        }
    }

    /// A request was sent.
    pub open spec fn sent(self) -> MetricsView {
        MetricsView { requests_sent: self.requests_sent.wrapping_add(1), ..self }
    }

    /// An answer came after some time, and said that the request succeeded or not.
    pub open spec fn answered(self, nanos: u128, success: bool) -> MetricsView {
        let v = self.timed(nanos);
        if success {
            v
        } else {
            MetricsView { requests_failed: v.requests_failed.wrapping_add(1), ..v }
        }
    }

    /// An answer said where it came from, if it did.
    pub open spec fn came_from(self, cache_status: Option<Seq<char>>) -> MetricsView {
        match cache_status {
            None => self,
            Some(s) => if s == "HIT"@ {
                MetricsView { cache_hits: self.cache_hits.wrapping_add(1), ..self }
            } else {
                MetricsView { cache_misses: self.cache_misses.wrapping_add(1), ..self }
            },
        }
    }

    /// A playlist was granted.
    pub open spec fn playlist_granted(self) -> MetricsView {
        MetricsView {
            requests_success: self.requests_success.wrapping_add(1),
            playlist_fetches: self.playlist_fetches.wrapping_add(1),
            ..self
        }
    }

    /// Bytes came.
    pub open spec fn downloaded(self, bytes: u64) -> MetricsView {
        MetricsView { bytes_downloaded: self.bytes_downloaded.wrapping_add(bytes), ..self }
    }

    /// A segment came.
    pub open spec fn segment_came(self, bytes: u64) -> MetricsView {
        MetricsView {
            requests_success: self.requests_success.wrapping_add(1),
            segment_fetches: self.segment_fetches.wrapping_add(1),
            ..self.downloaded(bytes)
        }
    }

    /// The first part of the report.
    pub open spec fn summary_lines(self, nanos: u128) -> Seq<LineView> {
        seq![
            LineView::Heading("=== Performance Metrics ==="@),
            LineView::Figure { name: "Test Duration: "@, figure: Figure::Seconds { nanos } },
            LineView::Count("Active Viewers: "@ + decimal(self.active_viewers as nat)),
            LineView::Heading("--- Requests ---"@),
            LineView::Count("Total: "@ + decimal(self.requests_sent as nat)),
            LineView::Count("Success: "@ + decimal(self.requests_success as nat)),
            LineView::Count("Failed: "@ + decimal(self.requests_failed as nat)),
            LineView::Figure {
                name: "Success Rate: "@,
                figure: Figure::Percent {
                    part: self.requests_success,
                    whole: if self.requests_sent == 0 { 1 } else { self.requests_sent },
                },
            },
            LineView::Heading("--- Content ---"@),
            LineView::Count("Playlists: "@ + decimal(self.playlist_fetches as nat)),
            LineView::Count("Segments: "@ + decimal(self.segment_fetches as nat)),
            LineView::Figure {
                name: "Data Downloaded: "@,
                figure: Figure::Megabytes { bytes: self.bytes_downloaded },
            },
            LineView::Figure {
                name: "Throughput: "@,
                figure: Figure::MegabytesPerSecond { bytes: self.bytes_downloaded, nanos },
            },
            LineView::Heading("--- Cache ---"@),
        ]
    }

    /// What the report says of the cache: nothing where no answer told.
    pub open spec fn cache_lines(self) -> Seq<LineView> {
        let total = self.cache_hits.wrapping_add(self.cache_misses);
        if total > 0 {
            seq![
                LineView::Count("Cache Hits: "@ + decimal(self.cache_hits as nat)),
                LineView::Count("Cache Misses: "@ + decimal(self.cache_misses as nat)),
                LineView::Figure {
                    name: "Hit Rate: "@,
                    figure: Figure::Percent { part: self.cache_hits, whole: total },
                },
            ]
        } else {
            Seq::empty()
        }
    }

    /// What the report says of the latencies.
    pub open spec fn latency_lines(self, p: (u128, u128, u128)) -> Seq<LineView> {
        seq![
            LineView::Heading("--- Latency ---"@),
            LineView::Figure { name: "P50: "@, figure: Figure::Millis { nanos: p.0 } },
            LineView::Figure { name: "P95: "@, figure: Figure::Millis { nanos: p.1 } },
            LineView::Figure { name: "P99: "@, figure: Figure::Millis { nanos: p.2 } },
        ]
    }

    /// What a detailed report adds.
    pub open spec fn rate_lines(self, nanos: u128, detailed: bool) -> Seq<LineView> {
        if detailed {
            seq![
                LineView::Heading("--- Request Rate ---"@),
                LineView::Figure {
                    name: "Requests/sec: "@,
                    figure: Figure::PerSecond { count: self.requests_sent, nanos },
                },
                LineView::Figure {
                    name: "Segments/sec: "@,
                    figure: Figure::PerSecond { count: self.segment_fetches, nanos },
                },
            ]
        } else {
            Seq::empty()
        }
    }

    /// The report after some time.
    pub open spec fn report(self, nanos: u128, detailed: bool, p: (u128, u128, u128)) -> Seq<LineView> {
        self.summary_lines(nanos) + self.cache_lines() + self.latency_lines(p) + self.rate_lines(
            nanos,
            detailed,
        )
    }
}

fn count_line(name: &str, n: u64) -> (r: ReportLine)
    ensures
        r@ == LineView::Count(name@ + decimal(n as nat)),
{
    ReportLine::Count(cat2(name, decimal_text(n).as_str()))
}

fn heading_line(text: &str) -> (r: ReportLine)
    ensures
        r@ == LineView::Heading(text@),
{
    ReportLine::Heading(text.to_owned())
}

fn figure_line(name: &str, figure: Figure) -> (r: ReportLine)
    ensures
        r@ == (LineView::Figure { name: name@, figure }),
{
    ReportLine::Figure { name: name.to_owned(), figure }
}

impl View for Metrics {
    type V = MetricsView;

    open spec fn view(&self) -> MetricsView {
        MetricsView {
            requests_sent: self.requests_sent,
            requests_success: self.requests_success,
            requests_failed: self.requests_failed,
            bytes_downloaded: self.bytes_downloaded,
            playlist_fetches: self.playlist_fetches,
            segment_fetches: self.segment_fetches,
            cache_hits: self.cache_hits,
            cache_misses: self.cache_misses,
            active_viewers: self.active_viewers,
            latencies: self.latencies@,
        }
    }
}

impl Metrics {
    /// Nothing measured.
    pub fn new() -> (r: Self)
        ensures
            r@ == (MetricsView {
                requests_sent: 0,
                requests_success: 0,
                requests_failed: 0,
                bytes_downloaded: 0,
                playlist_fetches: 0,
                segment_fetches: 0,
                cache_hits: 0,
                cache_misses: 0,
                active_viewers: 0,
                latencies: Seq::empty(),
            }),
            r@.bounded(),
    {
        Metrics {
            requests_sent: 0,
            requests_success: 0,
            requests_failed: 0,
            bytes_downloaded: 0,
            playlist_fetches: 0,
            segment_fetches: 0,
            cache_hits: 0,
            cache_misses: 0,
            active_viewers: 0,
            latencies: Vec::new(),
        }
    }

    /// Keeps a latency.
    pub fn record_latency(&mut self, nanos: u128)
        requires
            old(self)@.bounded(),
        ensures
            final(self)@ == old(self)@.timed(nanos),
            final(self)@.bounded(),
    {
        self.latencies.push(nanos);
        if self.latencies.len() > MAX_SAMPLES {
            let ghost all = self.latencies@;
            let rest = self.latencies.split_off(DROPPED_SAMPLES);
            self.latencies = rest;
            assert(self.latencies@ =~= all.skip(DROPPED_SAMPLES as int));
        }
    }

    /// The percentiles of numbers in ascending order.
    pub fn percentiles(sorted: &Vec<u128>) -> (r: (u128, u128, u128))
        requires
            sorted@.len() <= MAX_SAMPLES,
        ensures
            r == percentiles_of(sorted@),
    {
        let n: usize = sorted.len();
        if n == 0 {
            return (0, 0, 0);
        }
        let p50: usize = n / 2;
        let p95: usize = n * 95 / 100;
        let p99: usize = n * 99 / 100;
        (sorted[p50], sorted[p95], sorted[p99])
    }

    /// The middle, the 95th and the 99th percentile of the latencies.
    pub fn get_latency_percentiles(&self) -> (r: (u128, u128, u128))
        requires
            self@.bounded(),
        ensures
            exists|s: Seq<u128>| #[trigger] is_sorting(s, self@.latencies),
            forall|s: Seq<u128>| #[trigger]
                is_sorting(s, self@.latencies) ==> r == percentiles_of(s),
    {
        let mut sorted: Vec<u128> = Vec::new();
        let mut i: usize = 0;
        while i < self.latencies.len()
            invariant
                0 <= i <= self.latencies@.len(),
                sorted@ == self.latencies@.take(i as int),
            decreases self.latencies@.len() - i,
        {
            sorted.push(self.latencies[i]);
            assert(sorted@ =~= self.latencies@.take(i + 1));
            i = i + 1;
        }
        assert(sorted@ =~= self.latencies@);
        sort_numbers(&mut sorted);
        proof {
            lemma_sorting_is_unique(sorted@, sorted@, self.latencies@);
            assert forall|s: Seq<u128>| #[trigger] is_sorting(s, self@.latencies) implies s == sorted@ by {
                lemma_sorting_is_unique(s, sorted@, self.latencies@);
            }
        }
        Self::percentiles(&sorted)
    }

    /// Counts a request that was sent.
    pub fn request_sent(&mut self)
        ensures
            final(self)@ == old(self)@.sent(),
    {
        self.requests_sent = self.requests_sent.wrapping_add(1);
    }

    /// Counts an answer.
    pub fn response_received(&mut self, nanos: u128, success: bool)
        requires
            old(self)@.bounded(),
        ensures
            final(self)@ == old(self)@.answered(nanos, success),
            final(self)@.bounded(),
    {
        self.record_latency(nanos);
        if !success {
            self.requests_failed = self.requests_failed.wrapping_add(1);
        }
    }

    /// Counts what an answer said of where it came from.
    pub fn cache_status(&mut self, header: Option<&str>)
        ensures
            final(self)@ == old(self)@.came_from(crate::vars::setting(header)),
    {
        if let Some(status) = header {
            if same_text(status, "HIT") {
                self.cache_hits = self.cache_hits.wrapping_add(1);
            } else {
                self.cache_misses = self.cache_misses.wrapping_add(1);
            }
        }
    }

    /// Counts a playlist that was granted.
    pub fn playlist_received(&mut self)
        ensures
            final(self)@ == old(self)@.playlist_granted(),
    {
        self.requests_success = self.requests_success.wrapping_add(1);
        self.playlist_fetches = self.playlist_fetches.wrapping_add(1);
    }

    /// Counts the bytes of a playlist.
    pub fn bytes_received(&mut self, bytes: u64)
        ensures
            final(self)@ == old(self)@.downloaded(bytes),
    {
        self.bytes_downloaded = self.bytes_downloaded.wrapping_add(bytes);
    }

    /// Counts a segment that came.
    pub fn segment_received(&mut self, bytes: u64)
        ensures
            final(self)@ == old(self)@.segment_came(bytes),
    {
        self.requests_success = self.requests_success.wrapping_add(1);
        self.segment_fetches = self.segment_fetches.wrapping_add(1);
        self.bytes_downloaded = self.bytes_downloaded.wrapping_add(bytes);
    }

    /// Counts a viewer who begins to play.
    pub fn viewer_joined(&mut self)
        ensures
            final(self)@ == (MetricsView {
                active_viewers: old(self)@.active_viewers.wrapping_add(1),
                ..old(self)@
            }),
    {
        self.active_viewers = self.active_viewers.wrapping_add(1);
    }

    /// Counts a viewer who ends.
    pub fn viewer_left(&mut self)
        ensures
            final(self)@ == (MetricsView {
                active_viewers: old(self)@.active_viewers.wrapping_sub(1),
                ..old(self)@
            }),
    {
        self.active_viewers = self.active_viewers.wrapping_sub(1);
    }

    fn summary(&self, nanos: u128) -> (r: Vec<ReportLine>)
        ensures
            lines_said(r@) == self@.summary_lines(nanos),
    {
        let mut r: Vec<ReportLine> = Vec::new();
        r.push(heading_line("=== Performance Metrics ==="));
        r.push(figure_line("Test Duration: ", Figure::Seconds { nanos }));
        r.push(count_line("Active Viewers: ", self.active_viewers as u64));
        r.push(heading_line("--- Requests ---"));
        r.push(count_line("Total: ", self.requests_sent));
        r.push(count_line("Success: ", self.requests_success));
        r.push(count_line("Failed: ", self.requests_failed));
        let whole: u64 = if self.requests_sent == 0 {
            1
        } else {
            self.requests_sent
        };
        r.push(
            figure_line("Success Rate: ", Figure::Percent { part: self.requests_success, whole }),
        );
        r.push(heading_line("--- Content ---"));
        r.push(count_line("Playlists: ", self.playlist_fetches));
        r.push(count_line("Segments: ", self.segment_fetches));
        r.push(
            figure_line("Data Downloaded: ", Figure::Megabytes { bytes: self.bytes_downloaded }),
        );
        r.push(
            figure_line(
                "Throughput: ",
                Figure::MegabytesPerSecond { bytes: self.bytes_downloaded, nanos },
            ),
        );
        r.push(heading_line("--- Cache ---"));
        assert(lines_said(r@) =~= self@.summary_lines(nanos));
        r
    }

    /// The report after some time, line by line.
    pub fn print_metrics(&self, nanos: u128, detailed: bool) -> (r: Vec<ReportLine>)
        requires
            self@.bounded(),
        ensures
            exists|s: Seq<u128>|
                {
                    &&& #[trigger] is_sorting(s, self@.latencies)
                    &&& lines_said(r@) == self@.report(nanos, detailed, percentiles_of(s))
                },
    {
        let p = self.get_latency_percentiles();
        let mut r = self.summary(nanos);
        let ghost summary = lines_said(r@);
        let total: u64 = self.cache_hits.wrapping_add(self.cache_misses);
        if total > 0 {
            r.push(count_line("Cache Hits: ", self.cache_hits));
            r.push(count_line("Cache Misses: ", self.cache_misses));
            r.push(
                figure_line("Hit Rate: ", Figure::Percent { part: self.cache_hits, whole: total }),
            );
        }
        assert(lines_said(r@) =~= summary + self@.cache_lines());
        let ghost so_far = lines_said(r@);
        r.push(heading_line("--- Latency ---"));
        r.push(figure_line("P50: ", Figure::Millis { nanos: p.0 }));
        r.push(figure_line("P95: ", Figure::Millis { nanos: p.1 }));
        r.push(figure_line("P99: ", Figure::Millis { nanos: p.2 }));
        assert(lines_said(r@) =~= so_far + self@.latency_lines(p));
        let ghost so_far = lines_said(r@);
        if detailed {
            r.push(heading_line("--- Request Rate ---"));
            r.push(
                figure_line("Requests/sec: ", Figure::PerSecond { count: self.requests_sent, nanos }),
            );
            r.push(
                figure_line("Segments/sec: ", Figure::PerSecond { count: self.segment_fetches, nanos }),
            );
        }
        assert(lines_said(r@) =~= so_far + self@.rate_lines(nanos, detailed));
        proof {
            let s = choose|s: Seq<u128>| #[trigger] is_sorting(s, self@.latencies);
            assert(p == percentiles_of(s));
            assert(lines_said(r@) == self@.report(nanos, detailed, percentiles_of(s)));
        }
        r
    }
}

/// Percentiles ascend, and each is one of the latencies.
pub proof fn law_percentiles_ascend(s: Seq<u128>, a: Seq<u128>)
    requires
        is_sorting(s, a),
        a.len() > 0,
    ensures
        percentiles_of(s).0 <= percentiles_of(s).1 <= percentiles_of(s).2,
        a.contains(percentiles_of(s).0),
        a.contains(percentiles_of(s).1),
        a.contains(percentiles_of(s).2),
{
    broadcast use vstd::seq_lib::group_to_multiset_ensures;

    lemma_sorting_is_unique(s, s, a);
    let n = s.len() as int;
    assert(n / 2 <= rank(n, 95) <= rank(n, 99) < n);
    assert forall|i: int| 0 <= i < n implies a.contains(#[trigger] s[i]) by {
        assert(s.contains(s[i]));
        assert(s.to_multiset().count(s[i]) > 0);
    }
}

/// Of the latencies at most the last ten thousand are kept, and always at least the last
/// five thousand, where there were so many.
pub proof fn law_latencies_stay_recent(v: MetricsView, nanos: u128)
    requires
        v.bounded(),
    ensures
        v.timed(nanos).bounded(),
        v.timed(nanos).latencies.last() == nanos,
        v.latencies.len() >= DROPPED_SAMPLES ==> v.timed(nanos).latencies.len() > DROPPED_SAMPLES,
{
}

/// The percentiles stand where they belong: half, 95 and 99 of a hundred of the latencies
/// come before them in ascending order, rounded down.
pub proof fn law_percentiles_stand_in_place(s: Seq<u128>, k: int, percent: int)
    requires
        0 <= k < s.len(),
        percent == 50 || percent == 95 || percent == 99,
        100 * k <= percent * s.len() < 100 * (k + 1),
    ensures
        percent == 50 ==> percentiles_of(s).0 == s[k],
        percent == 95 ==> percentiles_of(s).1 == s[k],
        percent == 99 ==> percentiles_of(s).2 == s[k],
{
    let n = s.len() as int;
    assert(n * percent == percent * n) by (nonlinear_arith);
}

/// Without latencies all percentiles are zero.
pub proof fn law_no_latencies_no_percentiles()
    ensures
        percentiles_of(Seq::empty()) == (0u128, 0u128, 0u128),
{
}

/// A new latency is added behind the others. Only where there are ten thousand already, the
/// five thousand oldest go.
pub proof fn law_oldest_latencies_go_first(v: MetricsView, nanos: u128)
    ensures
        v.latencies.len() < 10_000 ==> v.timed(nanos).latencies == v.latencies.push(nanos),
        v.latencies.len() == 10_000 ==> v.timed(nanos).latencies == v.latencies.skip(5_000).push(nanos),
{
    if v.latencies.len() == 10_000 {
        assert(v.timed(nanos).latencies =~= v.latencies.skip(5_000).push(nanos));
    }
}

/// Each event is counted once, where it belongs and nowhere else: what is sent, what fails,
/// what is granted, what comes, and whether it came from a cache.
pub proof fn law_events_are_counted_once(
    v: MetricsView,
    nanos: u128,
    success: bool,
    status: Option<Seq<char>>,
    bytes: u64,
)
    requires
        v.requests_sent < u64::MAX,
        v.requests_success < u64::MAX,
        v.requests_failed < u64::MAX,
        v.playlist_fetches < u64::MAX,
        v.segment_fetches < u64::MAX,
        v.cache_hits < u64::MAX,
        v.cache_misses < u64::MAX,
        v.bytes_downloaded + bytes <= u64::MAX,
    ensures
        v.sent() == (MetricsView { requests_sent: (v.requests_sent + 1) as u64, ..v }),
        ({
            let w = v.answered(nanos, success);
            &&& w.requests_failed == v.requests_failed + (if success { 0int } else { 1 })
            &&& w.requests_success == v.requests_success && w.requests_sent == v.requests_sent
            &&& w.cache_hits == v.cache_hits && w.cache_misses == v.cache_misses
            &&& w.bytes_downloaded == v.bytes_downloaded
            &&& w.latencies == v.timed(nanos).latencies
        }),
        ({
            let w = v.came_from(status);
            let (hit, told) = (status == Some("HIT"@), status is Some);
            &&& w.cache_hits == v.cache_hits + (if hit { 1int } else { 0 })
            &&& w.cache_misses == v.cache_misses + (if told && !hit { 1int } else { 0 })
            &&& w.requests_sent == v.requests_sent && w.requests_success == v.requests_success
            &&& w.requests_failed == v.requests_failed && w.latencies == v.latencies
        }),
        v.playlist_granted() == (MetricsView {
            requests_success: (v.requests_success + 1) as u64,
            playlist_fetches: (v.playlist_fetches + 1) as u64,
            ..v
        }),
        v.downloaded(bytes) == (MetricsView {
            bytes_downloaded: (v.bytes_downloaded + bytes) as u64,
            ..v
        }),
        v.segment_came(bytes) == (MetricsView {
            requests_success: (v.requests_success + 1) as u64,
            segment_fetches: (v.segment_fetches + 1) as u64,
            bytes_downloaded: (v.bytes_downloaded + bytes) as u64,
            ..v
        }),
{
}

/// The report says each count under its name, the share of requests that succeeded, the
/// throughput and the percentiles; of the cache it speaks only where an answer told, and of
/// rates only where it goes into detail.
pub proof fn law_report_says_each_count(
    v: MetricsView,
    nanos: u128,
    detailed: bool,
    p: (u128, u128, u128),
)
    requires
        v.cache_hits + v.cache_misses <= u64::MAX,
    ensures
        ({
            let r = v.report(nanos, detailed, p);
            let told = v.cache_hits + v.cache_misses > 0;
            &&& r[1] == (LineView::Figure { name: "Test Duration: "@, figure: Figure::Seconds { nanos } })
            &&& r[2] == LineView::Count("Active Viewers: "@ + decimal(v.active_viewers as nat))
            &&& r[4] == LineView::Count("Total: "@ + decimal(v.requests_sent as nat))
            &&& r[5] == LineView::Count("Success: "@ + decimal(v.requests_success as nat))
            &&& r[6] == LineView::Count("Failed: "@ + decimal(v.requests_failed as nat))
            &&& v.requests_sent > 0 ==> r[7] == (LineView::Figure {
                name: "Success Rate: "@,
                figure: Figure::Percent { part: v.requests_success, whole: v.requests_sent },
            })
            &&& v.requests_sent == 0 ==> r[7] == (LineView::Figure {
                name: "Success Rate: "@,
                figure: Figure::Percent { part: v.requests_success, whole: 1 },
            })
            &&& r[9] == LineView::Count("Playlists: "@ + decimal(v.playlist_fetches as nat))
            &&& r[10] == LineView::Count("Segments: "@ + decimal(v.segment_fetches as nat))
            &&& r[11] == (LineView::Figure {
                name: "Data Downloaded: "@,
                figure: Figure::Megabytes { bytes: v.bytes_downloaded },
            })
            &&& r[12] == (LineView::Figure {
                name: "Throughput: "@,
                figure: Figure::MegabytesPerSecond { bytes: v.bytes_downloaded, nanos },
            })
            &&& told ==> {
                &&& r[14] == LineView::Count("Cache Hits: "@ + decimal(v.cache_hits as nat))
                &&& r[15] == LineView::Count("Cache Misses: "@ + decimal(v.cache_misses as nat))
                &&& r[16] == (LineView::Figure {
                    name: "Hit Rate: "@,
                    figure: Figure::Percent {
                        part: v.cache_hits,
                        whole: (v.cache_hits + v.cache_misses) as u64,
                    },
                })
            }
            &&& ({
                let at: int = if told { 17 } else { 14 };
                &&& r[at] == LineView::Heading("--- Latency ---"@)
                &&& r[at + 1] == (LineView::Figure { name: "P50: "@, figure: Figure::Millis { nanos: p.0 } })
                &&& r[at + 2] == (LineView::Figure { name: "P95: "@, figure: Figure::Millis { nanos: p.1 } })
                &&& r[at + 3] == (LineView::Figure { name: "P99: "@, figure: Figure::Millis { nanos: p.2 } })
                &&& !detailed ==> r.len() == at + 4
                &&& detailed ==> {
                    &&& r.len() == at + 7
                    &&& r[at + 5] == (LineView::Figure {
                        name: "Requests/sec: "@,
                        figure: Figure::PerSecond { count: v.requests_sent, nanos },
                    })
                    &&& r[at + 6] == (LineView::Figure {
                        name: "Segments/sec: "@,
                        figure: Figure::PerSecond { count: v.segment_fetches, nanos },
                    })
                }
            })
        }),
{
}

} // verus!
