//! The recent past of the server's throughput.
use crate::clock::{elapsed_millis, millis_between, utc_now, Timestamp};
use crate::models::RateSample;
use std::collections::VecDeque;
use vstd::prelude::*;
use vstd::string::*;

verus! {

broadcast use vstd::string::group_string_axioms;

/// How many points are kept.
pub const MAX_HISTORY_POINTS: usize = 60;

/// What was served between two readings, and how the server stood at the second. The
/// rates follow from the sample; its cache counts are those since the server started.
#[derive(Debug, Clone, PartialEq)]
pub struct MetricPoint {
    pub timestamp: Timestamp,
    pub rates: RateSample,
    pub viewers: usize,
    pub active_streams: usize,
    pub cache_memory_bytes: u64,
    pub cache_entries: usize,
    pub stream_viewers: Vec<(String, usize)>,
}

/// What was served in some time. Nothing in one second where no point was recorded.
#[derive(Debug, Clone, Copy, PartialEq, Eq)]
pub struct ThroughputMetrics {
    pub elapsed_millis: i64,
    pub bytes: u64,
    pub requests: u64,
    pub segments: u64,
}

/// What a point says.
pub struct PointView {
    pub timestamp: Timestamp,
    pub rates: RateSample,
    pub viewers: usize,
    pub active_streams: usize,
    pub cache_memory_bytes: u64,
    pub cache_entries: usize,
    pub stream_viewers: Seq<(Seq<char>, usize)>,
}

/// The names and the numbers of a list of streams with their viewers.
pub open spec fn viewer_list(v: Seq<(String, usize)>) -> Seq<(Seq<char>, usize)> {
    v.map_values(|e: (String, usize)| (e.0@, e.1))
}

impl View for MetricPoint {
    type V = PointView;

    open spec fn view(&self) -> PointView {
        PointView {
            timestamp: self.timestamp,
            rates: self.rates,
            viewers: self.viewers,
            active_streams: self.active_streams,
            cache_memory_bytes: self.cache_memory_bytes,
            cache_entries: self.cache_entries,
            stream_viewers: viewer_list(self.stream_viewers@),
        }
    }
}

/// What a list of points says.
pub open spec fn points_of(v: Seq<MetricPoint>) -> Seq<PointView> {
    v.map_values(|p: MetricPoint| p@)
}

/// The last `n` of a sequence, or all of it where it holds no more.
pub open spec fn newest<A>(s: Seq<A>, n: int) -> Seq<A> {
    if s.len() > n {
        s.skip(s.len() - n)
    } else {
        s
    }
}

/// How far a counter has come since it stood at `before`; nothing where it fell.
pub open spec fn gain(count: u64, before: u64) -> u64 {
    if count >= before {
        (count - before) as u64
    } else {
        0
    }
}

/// The points that are kept, and the totals at the last of them.
pub struct HistoryView {
    pub points: Seq<PointView>,
    pub last_bytes: u64,
    pub last_requests: u64,
    pub last_segments: u64,
    pub last_timestamp: Timestamp,
}

impl HistoryView {
    /// Nothing recorded up to `now`.
    pub open spec fn fresh(now: Timestamp) -> HistoryView {
        HistoryView {
            points: Seq::empty(),
            last_bytes: 0,
            last_requests: 0,
            last_segments: 0,
            last_timestamp: now,
        }
    }

    /// No more points than are kept.
    pub open spec fn bounded(self) -> bool {
        self.points.len() <= MAX_HISTORY_POINTS
    }

    /// What was served since the last point, with the cache counts at `now`.
    pub open spec fn sample(
        self,
        bytes: u64,
        requests: u64,
        segments: u64,
        cache_hits: u64,
        cache_misses: u64,
        now: Timestamp,
    ) -> RateSample {
        RateSample {
            elapsed_millis: millis_between(now, self.last_timestamp) as i64,
            bytes: gain(bytes, self.last_bytes),
            requests: gain(requests, self.last_requests),
            segments: gain(segments, self.last_segments),
            cache_hits,
            cache_misses,
        }
    }

    /// A reading at `now` adds a point, and the oldest beyond the bound is dropped. A
    /// reading within a millisecond of the last, or before it, changes nothing.
    pub open spec fn recorded(
        self,
        point: PointView,
        bytes: u64,
        requests: u64,
        segments: u64,
        now: Timestamp,
    ) -> HistoryView {
        if millis_between(now, self.last_timestamp) > 0 {
            HistoryView {
                points: newest(self.points.push(point), MAX_HISTORY_POINTS as int),
                last_bytes: bytes,
                last_requests: requests,
                last_segments: segments,
                last_timestamp: now,
            }
        } else {
            self
        }
    }

    /// What the last point says was served.
    pub open spec fn throughput(self) -> ThroughputMetrics {
        if self.points.len() > 0 {
            let rates = self.points.last().rates;
            ThroughputMetrics {
                elapsed_millis: rates.elapsed_millis,
                bytes: rates.bytes,
                requests: rates.requests,
                segments: rates.segments,
            }
        } else {
            ThroughputMetrics { elapsed_millis: 1000, bytes: 0, requests: 0, segments: 0 }
        }
    }
}

/// The last points of the server's throughput, and what the next is measured against.
#[derive(Debug)]
pub struct MetricsHistory {
    history: VecDeque<MetricPoint>,
    last_bytes: u64,
    last_requests: u64,
    last_segments: u64,
    last_timestamp: Timestamp,
}

impl MetricPoint {
    /// An equal point.
    pub fn duplicate(&self) -> (r: Self)
        ensures
            r@ == self@,
    {
        MetricPoint {
            timestamp: self.timestamp,
            rates: self.rates,
            viewers: self.viewers,
            active_streams: self.active_streams,
            cache_memory_bytes: self.cache_memory_bytes,
            cache_entries: self.cache_entries,
            stream_viewers: copy_viewers(&self.stream_viewers),
        }
    }
}

/// An equal list of streams with their viewers.
pub fn copy_viewers(v: &Vec<(String, usize)>) -> (r: Vec<(String, usize)>)
    ensures
        viewer_list(r@) == viewer_list(v@),
{
    let mut r: Vec<(String, usize)> = Vec::new();
    let mut i: usize = 0;
    while i < v.len()
        invariant
            0 <= i <= v@.len(),
            viewer_list(r@) == viewer_list(v@).take(i as int),
        decreases v@.len() - i,
    {
        let ghost so_far = viewer_list(r@);
        r.push((v[i].0.clone(), v[i].1));
        assert(viewer_list(r@) =~= so_far.push(viewer_list(v@)[i as int]));
        assert(viewer_list(v@).take(i + 1) =~= so_far.push(viewer_list(v@)[i as int]));
        i = i + 1;
    }
    assert(viewer_list(v@).take(i as int) =~= viewer_list(v@));
    r
}

fn gained(count: u64, before: u64) -> (r: u64)
    ensures
        r == gain(count, before),
{
    if count >= before {
        count - before
    } else {
        0
    }
}

impl MetricsHistory {
    pub closed spec fn view(&self) -> HistoryView {
        HistoryView {
            points: points_of(self.history@),
            last_bytes: self.last_bytes,
            last_requests: self.last_requests,
            last_segments: self.last_segments,
            last_timestamp: self.last_timestamp,
        }
    }

    /// A history that starts when it is made.
    pub fn new() -> (r: Self)
        ensures
            exists|now: Timestamp| r@ == #[trigger] HistoryView::fresh(now),
            r@.bounded(),
    {
        Self::starting_at(utc_now())
    }

    /// A history that starts at `now`.
    pub fn starting_at(now: Timestamp) -> (r: Self)
        ensures
            r@ == HistoryView::fresh(now),
            r@.bounded(),
    {
        let r = MetricsHistory {
            history: VecDeque::with_capacity(MAX_HISTORY_POINTS),
            last_bytes: 0,
            last_requests: 0,
            last_segments: 0,
            last_timestamp: now,
        };
        assert(r@.points =~= Seq::<PointView>::empty());
        r
    }

    /// Takes a reading now.
    pub fn record_point(
        &mut self,
        current_bytes: u64,
        current_requests: u64,
        current_segments: u64,
        viewers: usize,
        active_streams: usize,
        cache_hits: u64,
        cache_misses: u64,
        cache_memory_bytes: u64,
        cache_entries: usize,
        stream_viewers: Vec<(String, usize)>,
    )
        requires
            old(self)@.bounded(),
        ensures
            final(self)@.bounded(),
            exists|now: Timestamp|
                final(self)@ == #[trigger] old(self)@.recorded(
                    PointView {
                        timestamp: now,
                        rates: old(self)@.sample(
                            current_bytes,
                            current_requests,
                            current_segments,
                            cache_hits,
                            cache_misses,
                            now,
                        ),
                        viewers,
                        active_streams,
                        cache_memory_bytes,
                        cache_entries,
                        stream_viewers: viewer_list(stream_viewers@),
                    },
                    current_bytes,
                    current_requests,
                    current_segments,
                    now,
                ),
    {
        self.record_point_at(
            current_bytes,
            current_requests,
            current_segments,
            viewers,
            active_streams,
            cache_hits,
            cache_misses,
            cache_memory_bytes,
            cache_entries,
            stream_viewers,
            utc_now(),
        );
    }

    /// Takes a reading at `now`.
    pub fn record_point_at(
        &mut self,
        current_bytes: u64,
        current_requests: u64,
        current_segments: u64,
        viewers: usize,
        active_streams: usize,
        cache_hits: u64,
        cache_misses: u64,
        cache_memory_bytes: u64,
        cache_entries: usize,
        stream_viewers: Vec<(String, usize)>,
        now: Timestamp,
    )
        requires
            old(self)@.bounded(),
        ensures
            final(self)@.bounded(),
            final(self)@ == old(self)@.recorded(
                PointView {
                    timestamp: now,
                    rates: old(self)@.sample(
                        current_bytes,
                        current_requests,
                        current_segments,
                        cache_hits,
                        cache_misses,
                        now,
                    ),
                    viewers,
                    active_streams,
                    cache_memory_bytes,
                    cache_entries,
                    stream_viewers: viewer_list(stream_viewers@),
                },
                current_bytes,
                current_requests,
                current_segments,
                now,
            ),
    {
        let ghost before = self@.points;
        let elapsed: i64 = elapsed_millis(now, self.last_timestamp);
        if elapsed > 0 {
            let rates = RateSample {
                elapsed_millis: elapsed,
                bytes: gained(current_bytes, self.last_bytes),
                requests: gained(current_requests, self.last_requests),
                segments: gained(current_segments, self.last_segments),
                cache_hits,
                cache_misses,
            };
            let point = MetricPoint {
                timestamp: now,
                rates,
                viewers,
                active_streams,
                cache_memory_bytes,
                cache_entries,
                stream_viewers,
            };
            if self.history.len() >= MAX_HISTORY_POINTS {
                let _ = self.history.pop_front();
            }
            self.history.push_back(point);
            self.last_bytes = current_bytes;
            self.last_requests = current_requests;
            self.last_segments = current_segments;
            self.last_timestamp = now;
            assert(self@.points =~= newest(before.push(point@), MAX_HISTORY_POINTS as int));
        }
    }

    /// The points that are kept, oldest first.
    pub fn get_history(&self) -> (r: Vec<MetricPoint>)
        ensures
            points_of(r@) == self@.points,
    {
        let mut r: Vec<MetricPoint> = Vec::new();
        let mut i: usize = 0;
        while i < self.history.len()
            invariant
                0 <= i <= self.history@.len(),
                points_of(r@) == self@.points.take(i as int),
            decreases self.history@.len() - i,
        {
            let ghost so_far = points_of(r@);
            r.push(self.history[i].duplicate());
            assert(points_of(r@) =~= so_far.push(self@.points[i as int]));
            assert(self@.points.take(i + 1) =~= so_far.push(self@.points[i as int]));
            i = i + 1;
        }
        assert(self@.points.take(i as int) =~= self@.points);
        r
    }

    /// What the last point says was served.
    pub fn get_current_throughput(&self) -> (r: ThroughputMetrics)
        ensures
            r == self@.throughput(),
    {
        let n: usize = self.history.len();
        if n > 0 {
            let latest = &self.history[n - 1];
            assert(self@.points.last() == latest@);
            ThroughputMetrics {
                elapsed_millis: latest.rates.elapsed_millis,
                bytes: latest.rates.bytes,
                requests: latest.rates.requests,
                segments: latest.rates.segments,
            }
        } else {
            ThroughputMetrics { elapsed_millis: 1000, bytes: 0, requests: 0, segments: 0 }
        }
    }
}

/// A reading that counts keeps the history bounded, stands last in it, and leaves the
/// points before it in their order, but for the oldest beyond the bound.
pub proof fn law_history_slides(
    h: HistoryView,
    point: PointView,
    bytes: u64,
    requests: u64,
    segments: u64,
    now: Timestamp,
)
    requires
        h.bounded(),
        millis_between(now, h.last_timestamp) > 0,
    ensures
        h.recorded(point, bytes, requests, segments, now).bounded(),
        h.recorded(point, bytes, requests, segments, now).points.last() == point,
        h.points.len() < MAX_HISTORY_POINTS ==> h.recorded(
            point,
            bytes,
            requests,
            segments,
            now,
        ).points.drop_last() == h.points,
        h.points.len() == MAX_HISTORY_POINTS ==> h.recorded(
            point,
            bytes,
            requests,
            segments,
            now,
        ).points.drop_last() == h.points.drop_first(),
{
    let after = h.recorded(point, bytes, requests, segments, now).points;
    if h.points.len() < MAX_HISTORY_POINTS {
        assert(after.drop_last() =~= h.points);
    } else {
        assert(after.drop_last() =~= h.points.drop_first());
    }
}

/// What a reading finds.
pub struct Reading {
    pub bytes: u64,
    pub requests: u64,
    pub segments: u64,
    pub viewers: usize,
    pub active_streams: usize,
    pub cache_hits: u64,
    pub cache_misses: u64,
    pub cache_memory_bytes: u64,
    pub cache_entries: usize,
    pub stream_viewers: Seq<(Seq<char>, usize)>,
    pub now: Timestamp,
}

impl HistoryView {
    /// The point that a reading makes.
    pub open spec fn point(self, r: Reading) -> PointView {
        PointView {
            timestamp: r.now,
            rates: self.sample(r.bytes, r.requests, r.segments, r.cache_hits, r.cache_misses, r.now),
            viewers: r.viewers,
            active_streams: r.active_streams,
            cache_memory_bytes: r.cache_memory_bytes,
            cache_entries: r.cache_entries,
            stream_viewers: r.stream_viewers,
        }
    }

    /// After some readings, one after the other.
    pub open spec fn after(self, readings: Seq<Reading>) -> HistoryView
        decreases readings.len(),
    {
        if readings.len() == 0 {
            self
        } else {
            let h = self.after(readings.drop_last());
            let r = readings.last();
            h.recorded(h.point(r), r.bytes, r.requests, r.segments, r.now)
        }
    }

    /// The points that some readings make, each measured against the one before it.
    pub open spec fn points_made(self, readings: Seq<Reading>) -> Seq<PointView> {
        Seq::new(readings.len(), |i: int| self.after(readings.take(i)).point(readings[i]))
    }

    /// The clock moves on by a millisecond at least before each reading.
    pub open spec fn moves_on(self, readings: Seq<Reading>) -> bool {
        forall|i: int|
            0 <= i < readings.len() ==> millis_between(
                (#[trigger] readings[i]).now,
                self.after(readings.take(i)).last_timestamp,
            ) > 0
    }
}

/// After any number of readings the history holds the points of the last sixty of them, or
/// of all where there were no more, oldest first; each is measured against the reading
/// before it, and a further reading without time in between changes nothing.
pub proof fn law_history_keeps_last_readings(
    start: Timestamp,
    readings: Seq<Reading>,
    further: Reading,
)
    requires
        HistoryView::fresh(start).moves_on(readings),
    ensures
        ({
            let h = HistoryView::fresh(start);
            &&& h.after(readings).points == newest(h.points_made(readings), 60)
            &&& h.after(readings).points.len() == (if readings.len() < 60 {
                readings.len()
            } else {
                60
            })
            &&& readings.len() > 0 ==> {
                let last = readings.last();
                &&& h.after(readings).last_timestamp == last.now
                &&& h.after(readings).last_bytes == last.bytes
                &&& h.after(readings).last_requests == last.requests
                &&& h.after(readings).last_segments == last.segments
            }
            &&& millis_between(further.now, h.after(readings).last_timestamp) <= 0 ==> h.after(
                readings.push(further),
            ) == h.after(readings)
        }),
    decreases readings.len(),
{
    let h = HistoryView::fresh(start);
    assert(readings.push(further).drop_last() =~= readings);
    if readings.len() == 0 {
        assert(h.points_made(readings) =~= Seq::<PointView>::empty());
    } else {
        let front = readings.drop_last();
        let n = front.len() as int;
        assert forall|i: int| 0 <= i < front.len() implies #[trigger] front[i] == readings[i]
            && front.take(i) == readings.take(i) by {
            assert(front.take(i) =~= readings.take(i));
        }
        assert(h.moves_on(front)) by {
            assert forall|i: int| 0 <= i < front.len() implies millis_between(
                (#[trigger] front[i]).now,
                h.after(front.take(i)).last_timestamp,
            ) > 0 by {
                assert(front[i] == readings[i] && front.take(i) == readings.take(i));
                assert(millis_between(
                    readings[i].now,
                    h.after(readings.take(i)).last_timestamp,
                ) > 0);
            }
        }
        law_history_keeps_last_readings(start, front, further);
        assert(readings.take(n) =~= front);
        assert(millis_between(readings[n].now, h.after(readings.take(n)).last_timestamp) > 0);
        let made = h.points_made(readings);
        assert(made =~= h.points_made(front).push(h.after(front).point(readings.last()))) by {
            assert forall|i: int| 0 <= i < front.len() implies made[i] == h.points_made(front)[i] by {
                assert(front[i] == readings[i]);
            }
        }
        assert(h.after(readings).points =~= newest(made, 60));
    }
}

/// Two readings with no loss in between add up: what the two points say was served is
/// what the counter gained over both.
pub proof fn law_readings_add_up(first: u64, second: u64, third: u64)
    requires
        first <= second <= third,
    ensures
        gain(second, first) + gain(third, second) == gain(third, first),
{
}

/// The newest point tells what came between the last two readings: the time, the bytes, the
/// requests and the segments, and how the server stood at the second of them; the throughput
/// is what that point tells. A counter that began anew counts as nothing.
pub proof fn law_point_tells_what_was_served(h: HistoryView, first: Reading, second: Reading)
    requires
        millis_between(first.now, h.last_timestamp) > 0,
        0 < millis_between(second.now, first.now) <= i64::MAX,
    ensures
        ({
            let one = h.recorded(h.point(first), first.bytes, first.requests, first.segments, first.now);
            let two = one.recorded(
                one.point(second),
                second.bytes,
                second.requests,
                second.segments,
                second.now,
            );
            let (p, t) = (two.points.last(), two.throughput());
            &&& two.points.len() > 0
            &&& p.timestamp == second.now
            &&& p.rates.elapsed_millis == millis_between(second.now, first.now)
            &&& second.bytes >= first.bytes ==> p.rates.bytes == second.bytes - first.bytes
            &&& second.bytes < first.bytes ==> p.rates.bytes == 0
            &&& second.requests >= first.requests ==> p.rates.requests == second.requests - first.requests
            &&& second.requests < first.requests ==> p.rates.requests == 0
            &&& second.segments >= first.segments ==> p.rates.segments == second.segments - first.segments
            &&& second.segments < first.segments ==> p.rates.segments == 0
            &&& p.rates.cache_hits == second.cache_hits
            &&& p.rates.cache_misses == second.cache_misses
            &&& p.viewers == second.viewers && p.active_streams == second.active_streams
            &&& p.cache_memory_bytes == second.cache_memory_bytes
            &&& p.cache_entries == second.cache_entries
            &&& p.stream_viewers == second.stream_viewers
            &&& t.elapsed_millis == p.rates.elapsed_millis
            &&& t.bytes == p.rates.bytes
            &&& t.requests == p.rates.requests
            &&& t.segments == p.rates.segments
        }),
{
}

/// The first reading tells everything that was served since the start, and is the throughput
/// from then on.
pub proof fn law_first_reading_tells_all(start: Timestamp, r: Reading)
    requires
        0 < millis_between(r.now, start) <= i64::MAX,
    ensures
        ({
            let h = HistoryView::fresh(start);
            let t = h.recorded(h.point(r), r.bytes, r.requests, r.segments, r.now).throughput();
            &&& t.elapsed_millis == millis_between(r.now, start)
            &&& t.bytes == r.bytes
            &&& t.requests == r.requests
            &&& t.segments == r.segments
        }),
{
}

/// Before the first point nothing was served, in a second.
pub proof fn law_nothing_was_served_at_first(now: Timestamp)
    ensures
        HistoryView::fresh(now).throughput() == (ThroughputMetrics {
            elapsed_millis: 1000,
            bytes: 0,
            requests: 0,
            segments: 0,
        }),
        HistoryView::fresh(now).points.len() == 0,
{
}

} // verus!
