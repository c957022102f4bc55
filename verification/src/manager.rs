//! The life of streams: started when asked for, kept while watched, stopped when idle.
use crate::cache::{is_entry_of, CacheStats, CacheView, CachedSegment, SegmentCache};
use crate::clock::{elapsed_millis, elapsed_seconds, millis_between, seconds_between, utc_now, Timestamp};
use crate::config::{ladder, Config};
use crate::elasticsearch::{ClientView, ElasticsearchClient, MetricsDocument, MetricsSubject};
use crate::launch::{ladder_fits, plan_for, stream_dir, LaunchPlan, LaunchSettings, Launcher};
use crate::metrics::{HistoryView, MetricsHistory};
use crate::models::{RateSample, Stats, StreamInfo};
use crate::paths::{extension, path_extension};
use crate::registry::Registry;
use crate::sessions::{SessionManager, SessionsView};
use crate::text::{
    contains, decimal, decimal_text, has_part, lemma_filter_contains, occurs_at, same_text, texts,
};
use vstd::prelude::*;
use vstd::string::*;

verus! {

broadcast use vstd::string::group_string_axioms;

/// What does not change while the server runs.
pub struct ManagerSettings {
    pub launch: LaunchSettings,
    pub stream_timeout: u64,
    pub max_concurrent_streams: usize,
    pub stream_start_timeout: u64,
    pub server_started_at: Timestamp,
}

/// The streams, the viewers and the counts.
#[verifier::ext_equal]
pub struct ManagerView {
    pub settings: ManagerSettings,
    pub active: Map<Seq<char>, StreamInfo>,
    pub pending: Map<Seq<char>, Timestamp>,
    /// The streams for which an attempt to start them has not ended.
    pub launching: Set<Seq<char>>,
    pub stats: Stats,
    pub sessions: SessionsView,
    pub cache: CacheView,
    pub history: HistoryView,
    pub metrics: ClientView,
}

/// The answer to a request to start a stream.
#[derive(Debug, PartialEq)]
pub enum StartStep {
    /// The stream runs already.
    AlreadyActive,
    /// The stream is being started already.
    AlreadyPending,
    /// As many streams run or are being started as may.
    AtCapacity,
    /// The stream is to be started like this.
    Launch(LaunchPlan),
}

impl StartStep {
    /// What the request is answered at once, whether the stream runs or will; nothing
    /// where the attempt to start it decides.
    pub fn answer(&self) -> (r: Option<bool>)
        ensures
            r == (match *self {
                StartStep::AlreadyActive => Some(true),
                StartStep::AlreadyPending => Some(true),
                StartStep::AtCapacity => Some(false),
                StartStep::Launch(_) => None,
            }),
    {
        match self {
            StartStep::AlreadyActive => Some(true),
            StartStep::AlreadyPending => Some(true),
            StartStep::AtCapacity => Some(false),
            StartStep::Launch(_) => None,
        }
    }
}

/// How an attempt to start a stream ended.
#[derive(Debug, Clone, Copy, PartialEq, Eq)]
pub enum LaunchOutcome {
    /// The encoder runs.
    Running,
    /// The encoder could not be set up or started.
    Failed,
    /// The playlist that lists the renditions could not be written. The stream stays
    /// pending, but takes no place any more.
    Unwritten,
}

/// Why an attempt to start a stream came to no end.
#[derive(Debug, Clone, Copy, PartialEq, Eq)]
pub enum StartError {
    MasterPlaylist,
}

/// What a viewer who asks for a stream has to wait for.
#[derive(Debug, Clone, Copy, PartialEq, Eq)]
pub enum WaitStart {
    /// Nothing.
    Ready,
    /// The stream has to be started first.
    Start,
    /// The stream starts already.
    Wait,
}

/// What a waiting viewer does next.
#[derive(Debug, Clone, Copy, PartialEq, Eq)]
pub enum WaitStep {
    Ready,
    Sleep { millis: u64, next_millis: u64 },
    TimedOut,
}

/// What to do after a look at a running encoder.
#[derive(Debug, PartialEq)]
pub enum MonitorStep {
    /// Look again later.
    Continue,
    /// Nothing is left to look at.
    Finished,
    /// The encoder ended by itself: the directory is to be removed.
    CleanUp { stream_dir: String },
}

/// A stream that nobody has asked for in a while.
pub open spec fn is_idle(info: StreamInfo, now: Timestamp, timeout: u64) -> bool {
    seconds_between(now, info.last_accessed) > timeout as i64
}

/// Time has passed since the metrics of a stream were taken.
pub open spec fn metrics_due(info: StreamInfo, now: Timestamp) -> bool {
    millis_between(now, info.last_metrics_timestamp) > 0
}

/// What a stream served since its metrics were taken.
pub open spec fn served(info: StreamInfo, now: Timestamp) -> RateSample {
    RateSample {
        elapsed_millis: millis_between(now, info.last_metrics_timestamp) as i64,
        bytes: info.bytes_served,
        requests: info.requests_served,
        segments: info.segments_served,
        cache_hits: info.cache_hits,
        cache_misses: info.cache_misses,
    }
}

/// A stream whose metrics were taken at `now`, if they were due.
pub open spec fn metered(info: StreamInfo, now: Timestamp) -> StreamInfo {
    if metrics_due(info, now) {
        StreamInfo {
            bytes_served: 0,
            requests_served: 0,
            segments_served: 0,
            cache_hits: 0,
            cache_misses: 0,
            last_metrics_timestamp: now,
            ..info
        }
    } else {
        info
    }
}

/// A document that reports what a stream served up to `now`.
pub open spec fn reports(doc: MetricsDocument, v: ManagerView, key: Seq<char>, now: Timestamp) -> bool {
    &&& doc.timestamp == now
    &&& doc.server_name@ == ""@
    &&& doc.viewers == v.sessions.stream_viewers(key, now)
    &&& doc.rates == served(v.active[key], now)
    &&& doc.subject is Stream
    &&& doc.subject->stream_name@ == key
}

/// Whether a stream is ready: one of its playlists names a segment, and, where there are
/// several, the playlist that lists them is there.
pub open spec fn is_ready(adaptive: bool, master_exists: bool, playlists: Seq<Option<String>>) -> bool {
    &&& adaptive ==> master_exists
    &&& exists|i: int|
        0 <= i < playlists.len() && (#[trigger] playlists[i]) is Some && has_part(
            playlists[i]->0@,
            ".ts"@,
        )
}

/// How long to wait before the look after the next: a fifth longer than before the
/// next, but a second at most.
pub open spec fn next_interval(millis: u64) -> u64 {
    if millis * 6 / 5 > 1000 {
        1000
    } else {
        (millis * 6 / 5) as u64
    }
}

/// A file that an earlier run of the server left: a playlist or a segment.
pub open spec fn is_stale(path: Seq<char>) -> bool {
    extension(path) == Some("m3u8"@) || extension(path) == Some("ts"@)
}

impl ManagerView {
    /// How many streams run or have an attempt to start them that has not ended.
    pub open spec fn places(self) -> nat {
        self.active.dom().len() + self.launching.len()
    }

    /// As many streams run or are being started as may run at once.
    pub open spec fn at_limit(self) -> bool {
        self.places() >= self.settings.max_concurrent_streams
    }

    /// No more streams run or are being started than may run at once.
    pub open spec fn within_limit(self) -> bool {
        &&& self.active.dom().finite()
        &&& self.launching.finite()
        &&& self.places() <= self.settings.max_concurrent_streams
    }

    /// Every stream with an attempt that has not ended is pending.
    pub open spec fn orderly(self) -> bool {
        self.launching.subset_of(self.pending.dom())
    }

    /// A stream may be launched: it neither runs nor is pending, and there is room.
    pub open spec fn grants(self, key: Seq<char>) -> bool {
        &&& !self.active.contains_key(key)
        &&& !self.pending.contains_key(key)
        &&& !self.at_limit()
    }

    /// A stream is being started since `now`.
    pub open spec fn began(self, key: Seq<char>, now: Timestamp) -> ManagerView {
        ManagerView {
            pending: self.pending.insert(key, now),
            launching: self.launching.insert(key),
            ..self
        }
    }

    /// The encoder of a stream runs since `now`.
    pub open spec fn started(self, key: Seq<char>, now: Timestamp) -> ManagerView {
        ManagerView {
            active: self.active.insert(key, StreamInfo::started(now)),
            pending: self.pending.remove(key),
            launching: self.launching.remove(key),
            stats: Stats { started: self.stats.started.wrapping_add(1), ..self.stats },
            ..self
        }
    }

    /// A stream could not be started.
    pub open spec fn start_failed(self, key: Seq<char>) -> ManagerView {
        ManagerView {
            pending: self.pending.remove(key),
            launching: self.launching.remove(key),
            stats: Stats { failed: self.stats.failed.wrapping_add(1), ..self.stats },
            ..self
        }
    }

    /// The attempt to start a stream ended without its playlist.
    pub open spec fn unwritten(self, key: Seq<char>) -> ManagerView {
        ManagerView { launching: self.launching.remove(key), ..self }
    }

    /// The encoder of a stream ended by itself.
    pub open spec fn crashed(self, key: Seq<char>) -> ManagerView {
        ManagerView {
            active: self.active.remove(key),
            stats: Stats { failed: self.stats.failed.wrapping_add(1), ..self.stats },
            sessions: self.sessions.cleared(key),
            ..self
        }
    }

    /// A stream was stopped. Its viewers and its cached segments go even where it did not
    /// run.
    pub open spec fn stopped(self, key: Seq<char>) -> ManagerView {
        ManagerView {
            active: self.active.remove(key),
            stats: if self.active.contains_key(key) {
                Stats { stopped: self.stats.stopped.wrapping_add(1), ..self.stats }
            } else {
                self.stats
            },
            sessions: self.sessions.cleared(key),
            cache: self.cache.without_stream(key),
            ..self
        }
    }

    /// Several streams were stopped, one after the other.
    pub open spec fn stopped_all(self, keys: Seq<Seq<char>>) -> ManagerView
        decreases keys.len(),
    {
        if keys.len() == 0 {
            self
        } else {
            self.stopped_all(keys.drop_last()).stopped(keys.last())
        }
    }

    /// A stream was asked for at `now`.
    pub open spec fn accessed(self, key: Seq<char>, now: Timestamp) -> ManagerView {
        if self.active.contains_key(key) {
            ManagerView {
                active: self.active.insert(
                    key,
                    StreamInfo { last_accessed: now, ..self.active[key] },
                ),
                ..self
            }
        } else {
            self
        }
    }

    /// The streams that are idle at `now`, out of some.
    pub open spec fn idle_among(self, keys: Seq<Seq<char>>, now: Timestamp) -> Seq<Seq<char>> {
        keys.filter(|k: Seq<char>| is_idle(self.active[k], now, self.settings.stream_timeout))
    }

    /// The idle streams were stopped and the expired sessions forgotten.
    pub open spec fn cleaned(self, idle: Seq<Seq<char>>, now: Timestamp) -> ManagerView {
        let v = self.stopped_all(idle);
        ManagerView { sessions: v.sessions.swept(now), ..v }
    }

    /// Everything was stopped, and the metrics that waited were sent.
    pub open spec fn shut_down(self, keys: Seq<Seq<char>>, now: Timestamp) -> ManagerView {
        ManagerView {
            metrics: self.metrics.flushed(now),
            pending: Map::empty(),
            launching: Set::empty(),
            ..self
        }.stopped_all(keys)
    }

    /// The streams whose metrics are due at `now`, out of some.
    pub open spec fn due_among(self, keys: Seq<Seq<char>>, now: Timestamp) -> Seq<Seq<char>> {
        keys.filter(|k: Seq<char>| metrics_due(self.active[k], now))
    }

    /// The metrics of every stream for which they were due were taken.
    pub open spec fn metered(self, now: Timestamp) -> ManagerView {
        ManagerView { active: self.active.map_values(|i: StreamInfo| metered(i, now)), ..self }
    }
}

/// What a request to start a stream is answered, and what it changes.
pub open spec fn start_step(
    before: ManagerView,
    key: Seq<char>,
    maxrates: Seq<u32>,
    now: Timestamp,
    step: StartStep,
    after: ManagerView,
) -> bool {
    if before.active.contains_key(key) {
        step is AlreadyActive && after == before
    } else if before.pending.contains_key(key) {
        step is AlreadyPending && after == before
    } else if before.at_limit() {
        step is AtCapacity && after == before
    } else {
        &&& step is Launch
        &&& step->0@ == plan_for(before.settings.launch, key, maxrates)
        &&& after == before.began(key, now)
    }
}

/// What a viewer has to wait for, and what the question changes.
pub open spec fn wait_start(
    before: ManagerView,
    key: Seq<char>,
    ready: bool,
    now: Timestamp,
    step: WaitStart,
    after: ManagerView,
) -> bool {
    if before.active.contains_key(key) && ready {
        step == WaitStart::Ready && after == before.accessed(key, now)
    } else if before.active.contains_key(key) || before.pending.contains_key(key) {
        step == WaitStart::Wait && after == before
    } else {
        step == WaitStart::Start && after == before
    }
}

/// What a viewer who has waited for some time does next, and what that changes.
pub open spec fn wait_step(
    before: ManagerView,
    key: Seq<char>,
    ready: bool,
    elapsed_nanos: u128,
    millis: u64,
    now: Timestamp,
    step: WaitStep,
    after: ManagerView,
) -> bool {
    if elapsed_nanos >= before.settings.stream_start_timeout * 1_000_000_000 {
        step == WaitStep::TimedOut && after == before
    } else if ready {
        step == WaitStep::Ready && after == before.accessed(key, now)
    } else {
        step == (WaitStep::Sleep { millis, next_millis: next_interval(millis) }) && after == before
    }
}

/// The streams that run and that are being started, their viewers, and what is counted.
pub struct StreamManager {
    pub launcher: Launcher,
    pub stream_timeout: u64,
    pub max_concurrent_streams: usize,
    pub stream_start_timeout: u64,
    pub active_streams: Registry<StreamInfo>,
    pub pending_streams: Registry<Timestamp>,
    pub launching_streams: Registry<()>,
    pub stats: Stats,
    pub cache: SegmentCache,
    pub session_manager: SessionManager,
    pub server_started_at: Timestamp,
    pub metrics_history: MetricsHistory,
    pub elasticsearch: ElasticsearchClient,
}

impl StreamManager {
    pub open spec fn view(&self) -> ManagerView {
        ManagerView {
            settings: ManagerSettings {
                launch: self.launcher@,
                stream_timeout: self.stream_timeout,
                max_concurrent_streams: self.max_concurrent_streams,
                stream_start_timeout: self.stream_start_timeout,
                server_started_at: self.server_started_at,
            },
            active: self.active_streams@,
            pending: self.pending_streams@,
            launching: self.launching_streams@.dom(),
            stats: self.stats,
            sessions: self.session_manager@,
            cache: self.cache@,
            history: self.metrics_history@,
            metrics: self.elasticsearch@,
        }
    }

    pub open spec fn wf(&self) -> bool {
        &&& self.active_streams.wf()
        &&& self.pending_streams.wf()
        &&& self.launching_streams.wf()
        &&& self@.orderly()
        &&& self.session_manager.wf()
        &&& self.metrics_history@.bounded()
        &&& self.cache.wf()
    }

    /// The manager follows the settings, with nothing done since `now`.
    pub open spec fn follows(&self, config: Config, now: Timestamp) -> bool {
        &&& self@.settings.launch.host == config.rtmp.source_host@
        &&& self@.settings.launch.port == decimal(config.rtmp.source_port as nat)
        &&& self@.settings.launch.hls_path == config.server.hls_path@
        &&& self@.settings.launch.hls_time == config.ffmpeg.hls_time as u32
        &&& self@.settings.launch.hls_list_size == config.ffmpeg.hls_list_size as u32
        &&& self@.settings.launch.rw_timeout == config.ffmpeg.rw_timeout as u32
        &&& self@.settings.launch.adaptive == config.abr.is_adaptive()
        &&& self@.settings.launch.ladder == ladder(config.abr.variants@)
        &&& self@.settings.stream_timeout == config.stream.stream_timeout
        &&& self@.settings.max_concurrent_streams == config.stream.max_concurrent_streams
        &&& self@.settings.stream_start_timeout == config.stream.stream_start_timeout
        &&& self@.settings.server_started_at == now
        &&& self@.active == Map::<Seq<char>, StreamInfo>::empty()
        &&& self@.pending == Map::<Seq<char>, Timestamp>::empty()
        &&& self@.launching == Set::<Seq<char>>::empty()
        &&& self@.stats == Stats::zero()
        &&& self@.sessions == (SessionsView {
            sessions: Map::empty(),
            streams: Map::empty(),
            timeout: config.viewer.timeout_seconds,
            tracking: config.viewer.tracking_enabled,
        })
        &&& self@.cache == (CacheView {
            max_entries: config.cache.max_entries,
            max_file_size: config.cache.max_segment_size,
            ttl_seconds: config.cache.ttl_seconds,
            stats: CacheStats::zero(),
            entries: Set::empty(),
            dropped: Set::empty(),
        })
        &&& self@.history == HistoryView::fresh(now)
        &&& self.elasticsearch.follows(config.elasticsearch, now)
    }

    /// A manager that starts now.
    pub fn new(config: &Config) -> (r: Self)
        ensures
            r.wf(),
            exists|now: Timestamp| #[trigger] r.follows(*config, now),
    {
        Self::starting_at(config, utc_now())
    }

    /// A manager that starts at `now`.
    pub fn starting_at(config: &Config, now: Timestamp) -> (r: Self)
        ensures
            r.wf(),
            r.follows(*config, now),
    {
        let launching_streams: Registry<()> = Registry::new();
        assert(launching_streams@.dom() =~= Set::<Seq<char>>::empty());
        StreamManager {
            launcher: Launcher {
                srs_host: config.rtmp.source_host.clone(),
                srs_port: decimal_text(config.rtmp.source_port as u64),
                hls_path: config.server.hls_path.clone(),
                ffmpeg_hls_time: config.ffmpeg.hls_time as u32,
                ffmpeg_hls_list_size: config.ffmpeg.hls_list_size as u32,
                ffmpeg_rw_timeout: config.ffmpeg.rw_timeout as u32,
                abr_config: config.abr.duplicate(),
            },
            stream_timeout: config.stream.stream_timeout,
            max_concurrent_streams: config.stream.max_concurrent_streams,
            stream_start_timeout: config.stream.stream_start_timeout,
            active_streams: Registry::new(),
            pending_streams: Registry::new(),
            launching_streams,
            stats: Stats::new(),
            cache: SegmentCache::new(
                config.cache.max_entries,
                config.cache.max_segment_size,
                config.cache.ttl_seconds,
            ),
            session_manager: SessionManager::new(&config.viewer),
            server_started_at: now,
            metrics_history: MetricsHistory::starting_at(now),
            elasticsearch: ElasticsearchClient::starting_at(&config.elasticsearch, now),
        }
    }

    /// Whether as many streams run or are being started as may run at once.
    fn at_limit(&self) -> (r: bool)
        requires
            self.wf(),
        ensures
            r == self@.at_limit(),
    {
        let running: usize = self.active_streams.len();
        running >= self.max_concurrent_streams || self.launching_streams.len()
            >= self.max_concurrent_streams - running
    }

    /// Whether a request to start a stream would be granted.
    pub fn grants_launch(&self, stream_key: &str) -> (r: bool)
        requires
            self.wf(),
        ensures
            r == self@.grants(stream_key@),
    {
        !self.active_streams.contains_key(stream_key) && !self.pending_streams.contains_key(stream_key)
            && !self.at_limit()
    }

    /// Asks for a stream to be started now. `maxrates` gives the peak rate for each rung
    /// of the ladder, where a launch is granted.
    pub fn start_stream(&mut self, stream_key: &str, maxrates: &Vec<u32>) -> (r: StartStep)
        requires
            old(self).wf(),
            old(self)@.grants(stream_key@) ==> ladder_fits(old(self)@.settings.launch, maxrates@),
        ensures
            final(self).wf(),
            exists|now: Timestamp| #[trigger]
                start_step(old(self)@, stream_key@, maxrates@, now, r, final(self)@),
    {
        let now = utc_now();
        self.start_stream_at(stream_key, maxrates, now)
    }

    /// Asks for a stream to be started at `now`.
    pub fn start_stream_at(&mut self, stream_key: &str, maxrates: &Vec<u32>, now: Timestamp) -> (r:
        StartStep)
        requires
            old(self).wf(),
            old(self)@.grants(stream_key@) ==> ladder_fits(old(self)@.settings.launch, maxrates@),
        ensures
            final(self).wf(),
            start_step(old(self)@, stream_key@, maxrates@, now, r, final(self)@),
    {
        if self.active_streams.contains_key(stream_key) {
            return StartStep::AlreadyActive;
        }
        if self.pending_streams.contains_key(stream_key) {
            return StartStep::AlreadyPending;
        }
        if self.at_limit() {
            return StartStep::AtCapacity;
        }
        self.pending_streams.insert(stream_key.to_owned(), now);
        self.launching_streams.insert(stream_key.to_owned(), ());
        assert(self@ =~= old(self)@.began(stream_key@, now));
        let plan = self.launcher.plan(stream_key, maxrates);
        StartStep::Launch(plan)
    }

    /// Notes now how an attempt to start a stream ended, and says whether it runs.
    pub fn finish_start(&mut self, stream_key: &str, outcome: LaunchOutcome) -> (r: Result<
        bool,
        StartError,
    >)
        requires
            old(self).wf(),
        ensures
            final(self).wf(),
            match outcome {
                LaunchOutcome::Running => r == Ok::<bool, StartError>(true) && exists|now: Timestamp|
                    final(self)@ == #[trigger] old(self)@.started(stream_key@, now),
                LaunchOutcome::Failed => r == Ok::<bool, StartError>(false) && final(self)@ == old(
                    self,
                )@.start_failed(stream_key@),
                LaunchOutcome::Unwritten => r == Err::<bool, StartError>(StartError::MasterPlaylist)
                    && final(self)@ == old(self)@.unwritten(stream_key@),
            },
    {
        let now = utc_now();
        self.finish_start_at(stream_key, outcome, now)
    }

    /// Notes at `now` how an attempt to start a stream ended.
    pub fn finish_start_at(&mut self, stream_key: &str, outcome: LaunchOutcome, now: Timestamp) -> (r:
        Result<bool, StartError>)
        requires
            old(self).wf(),
        ensures
            final(self).wf(),
            match outcome {
                LaunchOutcome::Running => r == Ok::<bool, StartError>(true) && final(self)@ == old(
                    self,
                )@.started(stream_key@, now),
                LaunchOutcome::Failed => r == Ok::<bool, StartError>(false) && final(self)@ == old(
                    self,
                )@.start_failed(stream_key@),
                LaunchOutcome::Unwritten => r == Err::<bool, StartError>(StartError::MasterPlaylist)
                    && final(self)@ == old(self)@.unwritten(stream_key@),
            },
    {
        self.launching_streams.remove(stream_key);
        assert(self@.launching =~= old(self)@.launching.remove(stream_key@));
        match outcome {
            LaunchOutcome::Running => {
                self.active_streams.insert(stream_key.to_owned(), StreamInfo::new(now));
                self.pending_streams.remove(stream_key);
                self.stats.started = self.stats.started.wrapping_add(1);
                Ok(true)
            },
            LaunchOutcome::Failed => {
                self.pending_streams.remove(stream_key);
                self.stats.failed = self.stats.failed.wrapping_add(1);
                Ok(false)
            },
            LaunchOutcome::Unwritten => Err(StartError::MasterPlaylist),
        }
    }

    /// What to do after a look at the encoder of a stream: whether it has ended, or
    /// nothing where it was taken away to be stopped.
    pub fn monitor_step(&mut self, stream_key: &str, ended: Option<bool>) -> (r: MonitorStep)
        requires
            old(self).wf(),
        ensures
            final(self).wf(),
            if !old(self)@.active.contains_key(stream_key@) || ended is None {
                r is Finished && final(self)@ == old(self)@
            } else if ended == Some(false) {
                r is Continue && final(self)@ == old(self)@
            } else {
                &&& r is CleanUp
                &&& r->stream_dir@ == stream_dir(old(self)@.settings.launch.hls_path, stream_key@)
                &&& final(self)@ == old(self)@.crashed(stream_key@)
            },
    {
        if !self.active_streams.contains_key(stream_key) {
            return MonitorStep::Finished;
        }
        match ended {
            None => MonitorStep::Finished,
            Some(ended) => {
                if !ended {
                    return MonitorStep::Continue;
                }
                self.active_streams.remove(stream_key);
                self.stats.failed = self.stats.failed.wrapping_add(1);
                self.session_manager.clear_stream_sessions(stream_key);
                MonitorStep::CleanUp { stream_dir: self.launcher.stream_dir(stream_key) }
            },
        }
    }

    /// Stops a stream, and says whether it ran: then its encoder is to be ended.
    pub fn stop_stream(&mut self, stream_key: &str) -> (r: bool)
        requires
            old(self).wf(),
        ensures
            final(self).wf(),
            r == old(self)@.active.contains_key(stream_key@),
            final(self)@ == old(self)@.stopped(stream_key@),
    {
        let ran = self.active_streams.remove(stream_key).is_some();
        if ran {
            self.stats.stopped = self.stats.stopped.wrapping_add(1);
        }
        self.session_manager.clear_stream_sessions(stream_key);
        self.cache.invalidate_stream(stream_key);
        ran
    }

    /// Whether a stream is ready, given whether the playlist that lists its renditions is
    /// there, and what its playlists hold.
    pub fn stream_ready(&self, master_exists: bool, playlists: &Vec<Option<String>>) -> (r: bool)
        ensures
            r == is_ready(self@.settings.launch.adaptive, master_exists, playlists@),
    {
        if self.launcher.abr_config.adaptive() && !master_exists {
            return false;
        }
        let mut i: usize = 0;
        while i < playlists.len()
            invariant
                0 <= i <= playlists@.len(),
                forall|j: int|
                    0 <= j < i ==> !((#[trigger] playlists@[j]) is Some && has_part(
                        playlists@[j]->0@,
                        ".ts"@,
                    )),
                self@.settings.launch.adaptive ==> master_exists,
            decreases playlists@.len() - i,
        {
            if let Some(content) = &playlists[i] {
                if contains(content.as_str(), ".ts") {
                    assert(playlists@[i as int] is Some);
                    return true;
                }
            }
            i = i + 1;
        }
        false
    }

    /// What a viewer who asks for a stream now has to wait for.
    pub fn wait_for_stream(&mut self, stream_key: &str, ready: bool) -> (r: WaitStart)
        requires
            old(self).wf(),
        ensures
            final(self).wf(),
            exists|now: Timestamp| #[trigger]
                wait_start(old(self)@, stream_key@, ready, now, r, final(self)@),
    {
        let now = utc_now();
        self.wait_for_stream_at(stream_key, ready, now)
    }

    /// What a viewer who asks for a stream at `now` has to wait for.
    pub fn wait_for_stream_at(&mut self, stream_key: &str, ready: bool, now: Timestamp) -> (r: WaitStart)
        requires
            old(self).wf(),
        ensures
            final(self).wf(),
            wait_start(old(self)@, stream_key@, ready, now, r, final(self)@),
    {
        let active = self.active_streams.contains_key(stream_key);
        if active && ready {
            self.update_stream_access_at(stream_key, now);
            return WaitStart::Ready;
        }
        if active || self.pending_streams.contains_key(stream_key) {
            WaitStart::Wait
        } else {
            WaitStart::Start
        }
    }

    /// Whether a viewer for whom a stream had to be started goes on waiting, given what the
    /// request to start it was answered: a refusal or a failure ends the wait at once.
    pub fn waits_after_start(started: Result<bool, StartError>) -> (r: bool)
        ensures
            r == (started == Ok::<bool, StartError>(true)),
    {
        match started {
            Ok(running) => running,
            Err(_) => false,
        }
    }

    /// The first pause of a waiting viewer, in milliseconds.
    pub fn first_interval() -> (r: u64)
        ensures
            r == 200,
    {
        200
    }

    /// What a viewer who has waited since `elapsed_nanos` does now.
    pub fn poll_stream(&mut self, stream_key: &str, ready: bool, elapsed_nanos: u128, millis: u64) -> (r:
        WaitStep)
        requires
            old(self).wf(),
        ensures
            final(self).wf(),
            exists|now: Timestamp| #[trigger]
                wait_step(
                    old(self)@,
                    stream_key@,
                    ready,
                    elapsed_nanos,
                    millis,
                    now,
                    r,
                    final(self)@,
                ),
    {
        let now = utc_now();
        self.poll_stream_at(stream_key, ready, elapsed_nanos, millis, now)
    }

    /// What a viewer who has waited since `elapsed_nanos` does at `now`.
    pub fn poll_stream_at(
        &mut self,
        stream_key: &str,
        ready: bool,
        elapsed_nanos: u128,
        millis: u64,
        now: Timestamp,
    ) -> (r: WaitStep)
        requires
            old(self).wf(),
        ensures
            final(self).wf(),
            wait_step(old(self)@, stream_key@, ready, elapsed_nanos, millis, now, r, final(self)@),
    {
        let limit: u128 = self.stream_start_timeout as u128 * 1_000_000_000;
        if elapsed_nanos >= limit {
            return WaitStep::TimedOut;
        }
        if ready {
            self.update_stream_access_at(stream_key, now);
            return WaitStep::Ready;
        }
        let longer: u128 = millis as u128 * 6 / 5;
        let next_millis: u64 = if longer > 1000 {
            1000
        } else {
            longer as u64
        };
        WaitStep::Sleep { millis, next_millis }
    }

    /// Notes that a stream was asked for now.
    pub fn update_stream_access(&mut self, stream_key: &str)
        requires
            old(self).wf(),
        ensures
            final(self).wf(),
            exists|now: Timestamp| final(self)@ == #[trigger] old(self)@.accessed(stream_key@, now),
    {
        let now = utc_now();
        self.update_stream_access_at(stream_key, now);
    }

    /// Notes that a stream was asked for at `now`.
    pub fn update_stream_access_at(&mut self, stream_key: &str, now: Timestamp)
        requires
            old(self).wf(),
        ensures
            final(self).wf(),
            final(self)@ == old(self)@.accessed(stream_key@, now),
    {
        if let Some(info) = self.active_streams.get_mut(stream_key) {
            info.last_accessed = now;
        }
    }

    /// The streams that are idle at `now`.
    pub fn idle_streams_at(&self, now: Timestamp) -> (r: Vec<String>)
        requires
            self.wf(),
        ensures
            texts(r@) == self@.idle_among(self.active_streams.order(), now),
    {
        let ghost order = self.active_streams.order();
        let ghost test = |k: Seq<char>| is_idle(self@.active[k], now, self.stream_timeout);
        let mut r: Vec<String> = Vec::new();
        let mut i: usize = 0;
        proof {
            self.active_streams.lemma_order();
            assert(order.take(0) =~= Seq::<Seq<char>>::empty());
            reveal(Seq::filter);
            assert(texts(r@) =~= order.take(0).filter(test));
        }
        while i < self.active_streams.len()
            invariant
                self.wf(),
                order == self.active_streams.order(),
                test == (|k: Seq<char>| is_idle(self@.active[k], now, self.stream_timeout)),
                0 <= i <= order.len(),
                texts(r@) == order.take(i as int).filter(test),
            decreases order.len() - i,
        {
            let ghost so_far = texts(r@);
            let info = self.active_streams.value_at(i);
            proof {
                self.active_streams.lemma_order();
                assert(self@.active[order[i as int]] == *info);
                assert(order.take(i + 1).drop_last() =~= order.take(i as int));
                reveal(Seq::filter);
            }
            if elapsed_seconds(now, info.last_accessed) > self.stream_timeout as i64 {
                r.push(self.active_streams.key_at(i).clone());
                assert(texts(r@) =~= so_far.push(order[i as int]));
            }
            i = i + 1;
        }
        assert(order.take(i as int) =~= order);
        r
    }

    /// Stops several streams, one after the other.
    fn stop_streams(&mut self, keys: &Vec<String>)
        requires
            old(self).wf(),
        ensures
            final(self).wf(),
            final(self)@ == old(self)@.stopped_all(texts(keys@)),
    {
        let ghost all = texts(keys@);
        let ghost before = self@;
        let mut i: usize = 0;
        assert(all.take(0) =~= Seq::<Seq<char>>::empty());
        while i < keys.len()
            invariant
                self.wf(),
                all == texts(keys@),
                0 <= i <= all.len(),
                self@ == before.stopped_all(all.take(i as int)),
            decreases all.len() - i,
        {
            assert(all.take(i + 1).drop_last() =~= all.take(i as int));
            assert(all.take(i + 1).last() == keys@[i as int]@);
            self.stop_stream(keys[i].as_str());
            i = i + 1;
        }
        assert(all.take(i as int) =~= all);
    }

    /// One round of cleaning now: stops the idle streams and forgets expired sessions.
    /// The streams that were stopped are given back: their encoders are to be ended and
    /// their files removed.
    pub fn cleanup_idle_streams(&mut self) -> (r: Vec<String>)
        requires
            old(self).wf(),
        ensures
            final(self).wf(),
            exists|now: Timestamp|
                {
                    &&& texts(r@) == #[trigger] old(self)@.idle_among(
                        old(self).active_streams.order(),
                        now,
                    )
                    &&& final(self)@ == old(self)@.cleaned(texts(r@), now)
                },
    {
        let now = utc_now();
        self.cleanup_idle_streams_at(now)
    }

    /// One round of cleaning at `now`.
    pub fn cleanup_idle_streams_at(&mut self, now: Timestamp) -> (r: Vec<String>)
        requires
            old(self).wf(),
        ensures
            final(self).wf(),
            texts(r@) == old(self)@.idle_among(old(self).active_streams.order(), now),
            final(self)@ == old(self)@.cleaned(texts(r@), now),
    {
        let idle = self.idle_streams_at(now);
        self.stop_streams(&idle);
        self.session_manager.cleanup_expired_sessions_at(now);
        idle
    }

    /// Stops everything now. The streams that were stopped and the metrics that waited
    /// are given back.
    pub fn graceful_shutdown(&mut self) -> (r: (Vec<String>, Vec<MetricsDocument>))
        requires
            old(self).wf(),
        ensures
            final(self).wf(),
            texts(r.0@) == old(self).active_streams.order(),
            r.1@ == old(self)@.metrics.sent_on_flush(),
            exists|now: Timestamp|
                final(self)@ == #[trigger] old(self)@.shut_down(old(self).active_streams.order(), now),
    {
        let now = utc_now();
        self.graceful_shutdown_at(now)
    }

    /// Stops everything at `now`.
    pub fn graceful_shutdown_at(&mut self, now: Timestamp) -> (r: (Vec<String>, Vec<MetricsDocument>))
        requires
            old(self).wf(),
        ensures
            final(self).wf(),
            texts(r.0@) == old(self).active_streams.order(),
            r.1@ == old(self)@.metrics.sent_on_flush(),
            final(self)@ == old(self)@.shut_down(old(self).active_streams.order(), now),
    {
        let batch = self.elasticsearch.flush_at(now);
        self.pending_streams.clear();
        self.launching_streams.clear();
        assert(self@.launching =~= Set::<Seq<char>>::empty());
        let keys = self.active_streams.keys();
        self.stop_streams(&keys);
        (keys, batch)
    }

    /// Takes the metrics of every stream now, one document for each stream for which
    /// time has passed.
    pub fn collect_stream_metrics(&mut self) -> (r: Vec<MetricsDocument>)
        requires
            old(self).wf(),
        ensures
            final(self).wf(),
            exists|now: Timestamp|
                {
                    let due = old(self)@.due_among(old(self).active_streams.order(), now);
                    &&& final(self)@ == #[trigger] old(self)@.metered(now)
                    &&& r@.len() == due.len()
                    &&& forall|i: int|
                        0 <= i < due.len() ==> reports(#[trigger] r@[i], old(self)@, due[i], now)
                },
    {
        let now = utc_now();
        self.collect_stream_metrics_at(now)
    }

    /// Takes the metrics of every stream at `now`.
    pub fn collect_stream_metrics_at(&mut self, now: Timestamp) -> (r: Vec<MetricsDocument>)
        requires
            old(self).wf(),
        ensures
            final(self).wf(),
            final(self)@ == old(self)@.metered(now),
            ({
                let due = old(self)@.due_among(old(self).active_streams.order(), now);
                &&& r@.len() == due.len()
                &&& forall|i: int|
                    0 <= i < due.len() ==> reports(#[trigger] r@[i], old(self)@, due[i], now)
            }),
    {
        let ghost before = *self;
        let ghost order = self.active_streams.order();
        let ghost test = |k: Seq<char>| metrics_due(before@.active[k], now);
        let mut r: Vec<MetricsDocument> = Vec::new();
        let mut i: usize = 0;
        proof {
            self.active_streams.lemma_order();
            assert(order.take(0) =~= Seq::<Seq<char>>::empty());
            reveal(Seq::filter);
            assert(order.take(0).filter(test) =~= Seq::<Seq<char>>::empty());
        }
        while i < self.active_streams.len()
            invariant
                before.wf(),
                self.wf(),
                order == before.active_streams.order(),
                self.active_streams.order() == order,
                self@ == (ManagerView { active: self@.active, ..before@ }),
                test == (|k: Seq<char>| metrics_due(before@.active[k], now)),
                0 <= i <= order.len(),
                self@.active.dom() == before@.active.dom(),
                forall|j: int|
                    0 <= j < order.len() ==> self@.active[#[trigger] order[j]] == (if j < i {
                        metered(before@.active[order[j]], now)
                    } else {
                        before@.active[order[j]]
                    }),
                r@.len() == order.take(i as int).filter(test).len(),
                forall|j: int|
                    0 <= j < r@.len() ==> reports(
                        #[trigger] r@[j],
                        before@,
                        order.take(i as int).filter(test)[j],
                        now,
                    ),
            decreases order.len() - i,
        {
            let ghost keys = order.take(i as int).filter(test);
            let ghost key = order[i as int];
            let ghost held = self@;
            proof {
                before.active_streams.lemma_order();
                self.active_streams.lemma_order();
                assert(order.take(i + 1).drop_last() =~= order.take(i as int));
                reveal(Seq::filter);
                assert(held.active[key] == before@.active[key]);
            }
            let name = self.active_streams.key_at(i).clone();
            let info: StreamInfo = *self.active_streams.value_at(i);
            let elapsed: i64 = elapsed_millis(now, info.last_metrics_timestamp);
            if elapsed > 0 {
                let viewers: usize = self.session_manager.stream_viewer_count_at(name.as_str(), now);
                let slot = self.active_streams.value_at_mut(i);
                slot.bytes_served = 0;
                slot.requests_served = 0;
                slot.segments_served = 0;
                slot.cache_hits = 0;
                slot.cache_misses = 0;
                slot.last_metrics_timestamp = now;
                r.push(
                    MetricsDocument {
                        timestamp: now,
                        server_name: "".to_owned(),
                        viewers,
                        rates: RateSample {
                            elapsed_millis: elapsed,
                            bytes: info.bytes_served,
                            requests: info.requests_served,
                            segments: info.segments_served,
                            cache_hits: info.cache_hits,
                            cache_misses: info.cache_misses,
                        },
                        subject: MetricsSubject::Stream { stream_name: name },
                    },
                );
                proof {
                    assert(order.take(i + 1).filter(test) == keys.push(key));
                    assert(self@.active == held.active.insert(key, metered(before@.active[key], now)));
                    assert(self@.active.dom() =~= before@.active.dom());
                    assert(reports(r@.last(), before@, key, now));
                }
            } else {
                assert(order.take(i + 1).filter(test) == keys);
                assert(metered(before@.active[key], now) == before@.active[key]);
            }
            i = i + 1;
        }
        proof {
            before.active_streams.lemma_order();
            assert(order.take(i as int) =~= order);
            assert forall|k: Seq<char>| before@.active.contains_key(k) implies #[trigger] self@.active[k]
                == metered(before@.active[k], now) by {
                let j = order.index_of(k);
                assert(order[j] == k);
            }
            assert(self@.active =~= before@.metered(now).active);
        }
        r
    }

    /// The files that an earlier run left, out of those in the HLS directory.
    pub fn stale_files(paths: &Vec<String>) -> (r: Vec<String>)
        ensures
            texts(r@) == texts(paths@).filter(|p: Seq<char>| is_stale(p)),
    {
        let ghost all = texts(paths@);
        let ghost test = |p: Seq<char>| is_stale(p);
        let mut r: Vec<String> = Vec::new();
        let mut i: usize = 0;
        assert(all.take(0) =~= Seq::<Seq<char>>::empty());
        reveal(Seq::filter);
        assert(texts(r@) =~= all.take(0).filter(test));
        while i < paths.len()
            invariant
                all == texts(paths@),
                test == (|p: Seq<char>| is_stale(p)),
                0 <= i <= all.len(),
                texts(r@) == all.take(i as int).filter(test),
            decreases all.len() - i,
        {
            let ghost so_far = texts(r@);
            assert(all.take(i + 1).drop_last() =~= all.take(i as int));
            assert(all[i as int] == paths@[i as int]@);
            reveal(Seq::filter);
            let stale = match path_extension(paths[i].as_str()) {
                Some(ext) => same_text(ext.as_str(), "m3u8") || same_text(ext.as_str(), "ts"),
                None => false,
            };
            if stale {
                r.push(paths[i].clone());
                assert(texts(r@) =~= so_far.push(all[i as int]));
            }
            i = i + 1;
        }
        assert(all.take(i as int) =~= all);
        r
    }
}

// ---------------------------------------------------------------------------
// Laws
// ---------------------------------------------------------------------------

proof fn lemma_stopped_all(v: ManagerView, keys: Seq<Seq<char>>)
    ensures
        v.stopped_all(keys).active == v.active.remove_keys(keys.to_set()),
        v.stopped_all(keys).settings == v.settings,
        v.stopped_all(keys).pending == v.pending,
        v.stopped_all(keys).launching == v.launching,
        v.stopped_all(keys).history == v.history,
        v.stopped_all(keys).metrics == v.metrics,
    decreases keys.len(),
{
    if keys.len() == 0 {
        assert(v.active.remove_keys(keys.to_set()) =~= v.active);
    } else {
        let front = keys.drop_last();
        lemma_stopped_all(v, front);
        assert forall|k: Seq<char>| keys.contains(k) <==> front.contains(k) || k == keys.last() by {
            if keys.contains(k) {
                let i = keys.index_of(k);
                if i < front.len() {
                    assert(front[i] == k);
                }
            }
            if front.contains(k) {
                assert(keys[front.index_of(k)] == k);
            }
            assert(keys[keys.len() - 1] == keys.last());
        }
        assert(v.stopped_all(keys).active =~= v.active.remove_keys(keys.to_set()));
    }
}

/// However many requests to start streams overlap, no more streams run or are being started
/// than may run at once: a request keeps the limit, and a launch is only granted below it.
pub proof fn law_launch_keeps_limit(
    v: ManagerView,
    key: Seq<char>,
    maxrates: Seq<u32>,
    now: Timestamp,
    step: StartStep,
    after: ManagerView,
)
    requires
        v.within_limit(),
        start_step(v, key, maxrates, now, step, after),
    ensures
        after.within_limit(),
        after.active == v.active,
        step is Launch ==> !v.at_limit(),
{
}

/// The end of an attempt to start a stream keeps the limit, whether the stream then runs or
/// not.
pub proof fn law_started_stream_keeps_limit(v: ManagerView, key: Seq<char>, now: Timestamp)
    requires
        v.within_limit(),
        v.launching.contains(key),
    ensures
        v.started(key, now).within_limit(),
        v.started(key, now).active.dom().len() <= v.settings.max_concurrent_streams,
        v.start_failed(key).within_limit(),
        v.unwritten(key).within_limit(),
{
    assert(v.started(key, now).active.dom() =~= v.active.dom().insert(key));
}

/// Only streams that run and attempts that have not ended take a place: once an attempt has
/// ended, however it did, as many places are taken as before it, and one more only where
/// the stream runs.
pub proof fn law_ended_attempt_frees_its_place(
    v: ManagerView,
    key: Seq<char>,
    begun: Timestamp,
    ended: Timestamp,
)
    requires
        v.active.dom().finite(),
        v.launching.finite(),
        v.orderly(),
        v.grants(key),
    ensures
        v.began(key, begun).places() == v.places() + 1,
        v.began(key, begun).started(key, ended).places() == v.places() + 1,
        v.began(key, begun).start_failed(key).places() == v.places(),
        v.began(key, begun).unwritten(key).places() == v.places(),
        v.began(key, begun).unwritten(key).launching == v.launching,
{
    let w = v.began(key, begun);
    assert(w.launching.remove(key) =~= v.launching);
    assert(w.started(key, ended).active.dom() =~= v.active.dom().insert(key));
}

/// The end of streams keeps the limit.
pub proof fn law_ended_streams_keep_limit(
    v: ManagerView,
    key: Seq<char>,
    idle: Seq<Seq<char>>,
    now: Timestamp,
)
    requires
        v.within_limit(),
    ensures
        v.stopped(key).within_limit(),
        v.crashed(key).within_limit(),
        v.cleaned(idle, now).within_limit(),
        v.shut_down(idle, now).within_limit(),
{
    assert(v.stopped(key).active.dom() =~= v.active.dom().remove(key));
    assert(v.crashed(key).active.dom() =~= v.active.dom().remove(key));
    lemma_stopped_all(v, idle);
    assert(v.active.remove_keys(idle.to_set()).dom() =~= v.active.dom().difference(idle.to_set()));
    vstd::set_lib::lemma_len_difference(v.active.dom(), idle.to_set());
    let w = ManagerView {
        metrics: v.metrics.flushed(now),
        pending: Map::empty(),
        launching: Set::empty(),
        ..v
    };
    lemma_stopped_all(w, idle);
}

/// Where as many streams run or are being started as may, no other is launched, and the
/// request changes nothing.
pub proof fn law_no_launch_at_limit(
    v: ManagerView,
    key: Seq<char>,
    maxrates: Seq<u32>,
    now: Timestamp,
    step: StartStep,
    after: ManagerView,
)
    requires
        v.at_limit(),
        start_step(v, key, maxrates, now, step, after),
    ensures
        step !is Launch,
        !v.active.contains_key(key) && !v.pending.contains_key(key) ==> step is AtCapacity,
        after == v,
{
}

/// A request to start a stream that runs finds it running and changes nothing, also where
/// there is no room for another.
pub proof fn law_running_stream_is_left_alone(
    v: ManagerView,
    key: Seq<char>,
    maxrates: Seq<u32>,
    now: Timestamp,
    step: StartStep,
    after: ManagerView,
)
    requires
        v.active.contains_key(key),
        start_step(v, key, maxrates, now, step, after),
    ensures
        step is AlreadyActive,
        after == v,
{
}

/// While a stream runs or is being started, it is not launched a second time. An attempt
/// whose encoder ran or failed leaves the stream running or free to be tried again; one
/// whose playlist could not be written leaves it pending, and others free to be started.
pub proof fn law_one_launch_at_a_time(
    v: ManagerView,
    key: Seq<char>,
    maxrates: Seq<u32>,
    begun: Timestamp,
    ended: Timestamp,
    step: StartStep,
    after: ManagerView,
)
    requires
        v.orderly(),
        start_step(v, key, maxrates, begun, step, after),
        step is Launch,
    ensures
        forall|now: Timestamp, again: StartStep, w: ManagerView| #[trigger]
            start_step(after, key, maxrates, now, again, w) ==> again is AlreadyPending,
        forall|now: Timestamp, again: StartStep, w: ManagerView| #[trigger]
            start_step(after.started(key, ended), key, maxrates, now, again, w)
                ==> again is AlreadyActive,
        forall|now: Timestamp, again: StartStep, w: ManagerView| #[trigger]
            start_step(after.start_failed(key), key, maxrates, now, again, w) ==> again is Launch,
        forall|now: Timestamp, again: StartStep, w: ManagerView| #[trigger]
            start_step(after.unwritten(key), key, maxrates, now, again, w)
                ==> again is AlreadyPending,
        forall|other: Seq<char>, now: Timestamp, again: StartStep, w: ManagerView| #[trigger]
            start_step(after.unwritten(key), other, maxrates, now, again, w) && other != key
                && v.grants(other) ==> again is Launch,
{
    assert(after.start_failed(key).pending =~= v.pending);
    assert(after.launching.remove(key) =~= v.launching);
}

/// A stream whose encoder ended by itself can be started again, and has no viewers left.
pub proof fn law_crashed_stream_may_restart(
    v: ManagerView,
    key: Seq<char>,
    maxrates: Seq<u32>,
    now: Timestamp,
)
    requires
        v.within_limit(),
        v.active.contains_key(key),
        !v.pending.contains_key(key),
        v.sessions.consistent(),
    ensures
        forall|later: Timestamp, step: StartStep, w: ManagerView| #[trigger]
            start_step(v.crashed(key), key, maxrates, later, step, w) ==> step is Launch,
        v.crashed(key).sessions.stream_viewers(key, now) == 0,
{
    assert(v.crashed(key).active.dom() =~= v.active.dom().remove(key));
    crate::sessions::law_cleared_stream_has_no_viewers(v.sessions, key, key, now);
}

/// A request keeps a stream from being idle at that moment.
pub proof fn law_access_keeps_stream(v: ManagerView, key: Seq<char>, now: Timestamp)
    requires
        v.active.contains_key(key),
        v.settings.stream_timeout as i64 >= 0,
    ensures
        !is_idle(v.accessed(key, now).active[key], now, v.settings.stream_timeout),
{
}

/// After a round of cleaning no stream that runs is idle, every stream that was not idle
/// still runs as it did, and nothing is started or pending that was not.
pub proof fn law_cleaning_leaves_no_idle_stream(
    v: ManagerView,
    order: Seq<Seq<char>>,
    now: Timestamp,
    key: Seq<char>,
)
    requires
        order.to_set() == v.active.dom(),
    ensures
        ({
            let w = v.cleaned(v.idle_among(order, now), now);
            &&& w.active.contains_key(key) <==> v.active.contains_key(key) && !is_idle(
                v.active[key],
                now,
                v.settings.stream_timeout,
            )
            &&& w.active.contains_key(key) ==> w.active[key] == v.active[key]
            &&& w.pending == v.pending
        }),
{
    let idle = v.idle_among(order, now);
    let test = |k: Seq<char>| is_idle(v.active[k], now, v.settings.stream_timeout);
    lemma_stopped_all(v, idle);
    lemma_filter_contains(order, test, key);
    assert(order.contains(key) <==> order.to_set().contains(key));
}

/// A round of cleaning stops exactly the streams that nobody has asked for in more whole
/// seconds than the stream timeout, whenever they started and whatever they served.
pub proof fn law_silent_stream_is_stopped(
    v: ManagerView,
    order: Seq<Seq<char>>,
    now: Timestamp,
    key: Seq<char>,
)
    requires
        order.to_set() == v.active.dom(),
    ensures
        ({
            let stopped = v.idle_among(order, now);
            let silent = v.active.contains_key(key) && seconds_between(
                now,
                v.active[key].last_accessed,
            ) > v.settings.stream_timeout as i64;
            &&& stopped.contains(key) <==> silent
            &&& v.cleaned(stopped, now).active.contains_key(key) <==> v.active.contains_key(key)
                && !silent
            &&& silent ==> forall|entry: Seq<char>| #[trigger]
                v.cleaned(stopped, now).cache.entries.contains(entry) ==> !is_entry_of(entry, key)
        }),
{
    let idle = v.idle_among(order, now);
    let test = |k: Seq<char>| is_idle(v.active[k], now, v.settings.stream_timeout);
    lemma_stopped_all(v, idle);
    lemma_filter_contains(order, test, key);
    assert(order.contains(key) <==> order.to_set().contains(key));
    lemma_stopped_all_cache(v, idle);
    if idle.contains(key) {
        assert forall|entry: Seq<char>| #[trigger]
            v.cleaned(idle, now).cache.entries.contains(entry) implies !is_entry_of(entry, key) by {
            assert(idle[idle.index_of(key)] == key);
        }
    }
}

proof fn lemma_stopped_all_cache(v: ManagerView, keys: Seq<Seq<char>>)
    ensures
        forall|entry: Seq<char>, i: int|
            #![trigger v.stopped_all(keys).cache.entries.contains(entry), keys[i]]
            v.stopped_all(keys).cache.entries.contains(entry) && 0 <= i < keys.len() ==> !is_entry_of(
                entry,
                keys[i],
            ),
    decreases keys.len(),
{
    if keys.len() > 0 {
        let front = keys.drop_last();
        lemma_stopped_all_cache(v, front);
        assert forall|entry: Seq<char>, i: int|
            #![trigger v.stopped_all(keys).cache.entries.contains(entry), keys[i]]
            v.stopped_all(keys).cache.entries.contains(entry) && 0 <= i < keys.len() implies !is_entry_of(
            entry,
            keys[i],
        ) by {
            assert(v.stopped_all(front).cache.entries.contains(entry));
            if i < front.len() {
                assert(front[i] == keys[i]);
            }
        }
    }
}

/// A request for a stream that runs sets the time of its last access, and nothing else;
/// one for any other stream changes nothing.
pub proof fn law_access_is_noted(v: ManagerView, key: Seq<char>, other: Seq<char>, now: Timestamp)
    requires
        other != key,
    ensures
        ({
            let w = v.accessed(key, now);
            &&& v.active.contains_key(key) ==> {
                let (before, after) = (v.active[key], w.active[key]);
                &&& after.last_accessed == now
                &&& after.started_at == before.started_at
                &&& after.bytes_served == before.bytes_served
                &&& after.requests_served == before.requests_served
                &&& after.segments_served == before.segments_served
                &&& after.playlists_served == before.playlists_served
                &&& after.cache_hits == before.cache_hits
                &&& after.cache_misses == before.cache_misses
                &&& after.last_metrics_timestamp == before.last_metrics_timestamp
            }
            &&& !v.active.contains_key(key) ==> w == v
            &&& w.active.contains_key(other) <==> v.active.contains_key(other)
            &&& v.active.contains_key(other) ==> w.active[other] == v.active[other]
            &&& w.active.contains_key(key) <==> v.active.contains_key(key)
            &&& w.pending == v.pending && w.launching == v.launching && w.stats == v.stats
            &&& w.sessions == v.sessions && w.cache == v.cache && w.settings == v.settings
        }),
{
}

/// A stream that was started begins anew at that moment, with nothing served; the start, a
/// failure, a crash and a stop are each counted once, and no other stream is touched.
pub proof fn law_outcomes_are_counted(
    v: ManagerView,
    key: Seq<char>,
    other: Seq<char>,
    begun: Timestamp,
    now: Timestamp,
)
    requires
        other != key,
        v.stats.started < u64::MAX,
        v.stats.failed < u64::MAX,
        v.stats.stopped < u64::MAX,
    ensures
        ({
            let w = v.began(key, begun);
            &&& w.pending.contains_key(key) && w.pending[key] == begun
            &&& w.active == v.active && w.stats == v.stats
            &&& w.pending.contains_key(other) <==> v.pending.contains_key(other)
        }),
        ({
            let w = v.started(key, now);
            let info = w.active[key];
            &&& w.active.contains_key(key) && !w.pending.contains_key(key)
            &&& info.started_at == now && info.last_accessed == now && info.last_metrics_timestamp == now
            &&& info.bytes_served == 0 && info.requests_served == 0 && info.segments_served == 0
            &&& info.cache_hits == 0 && info.cache_misses == 0
            &&& w.stats.started == v.stats.started + 1
            &&& w.stats.failed == v.stats.failed && w.stats.stopped == v.stats.stopped
            &&& v.active.contains_key(other) ==> w.active[other] == v.active[other]
            &&& w.active.contains_key(other) <==> v.active.contains_key(other)
        }),
        ({
            let w = v.start_failed(key);
            &&& !w.pending.contains_key(key) && w.active == v.active
            &&& w.stats.failed == v.stats.failed + 1
            &&& w.stats.started == v.stats.started && w.stats.stopped == v.stats.stopped
        }),
        ({
            let w = v.crashed(key);
            &&& !w.active.contains_key(key)
            &&& w.stats.failed == v.stats.failed + 1
            &&& w.stats.started == v.stats.started && w.stats.stopped == v.stats.stopped
            &&& w.active.contains_key(other) <==> v.active.contains_key(other)
        }),
        ({
            let w = v.stopped(key);
            &&& !w.active.contains_key(key)
            &&& v.active.contains_key(key) ==> w.stats.stopped == v.stats.stopped + 1
            &&& !v.active.contains_key(key) ==> w.stats.stopped == v.stats.stopped
            &&& w.stats.started == v.stats.started && w.stats.failed == v.stats.failed
            &&& w.active.contains_key(other) <==> v.active.contains_key(other)
            &&& v.active.contains_key(other) ==> w.active[other] == v.active[other]
            &&& w.pending == v.pending
        }),
{
}

/// A stream is ready exactly where one of its playlists has `.ts` in it, and, where it has
/// several renditions, the playlist that lists them is there, too.
pub proof fn law_ready_stream_names_a_segment(
    adaptive: bool,
    master_exists: bool,
    playlists: Seq<Option<String>>,
)
    ensures
        is_ready(adaptive, master_exists, playlists) <==> (adaptive ==> master_exists) && exists|
            i: int,
            at: int,
        |
            {
                &&& 0 <= i < playlists.len()
                &&& playlists[i] is Some
                &&& 0 <= at
                &&& at + 3 <= playlists[i]->0@.len()
                &&& #[trigger] playlists[i]->0@[at] == '.'
                &&& playlists[i]->0@[at + 1] == 't'
                &&& playlists[i]->0@[at + 2] == 's'
            },
{
    reveal_strlit(".ts");
    assert(".ts"@ =~= seq!['.', 't', 's']);
    if is_ready(adaptive, master_exists, playlists) {
        let i = choose|i: int|
            0 <= i < playlists.len() && (#[trigger] playlists[i]) is Some && has_part(
                playlists[i]->0@,
                ".ts"@,
            );
        let s = playlists[i]->0@;
        let at = choose|at: int| occurs_at(s, ".ts"@, at);
        assert(s.subrange(at, at + 3) == ".ts"@);
        assert(s.subrange(at, at + 3)[0] == s[at]);
        assert(s.subrange(at, at + 3)[1] == s[at + 1]);
        assert(s.subrange(at, at + 3)[2] == s[at + 2]);
        assert(playlists[i]->0@[at] == '.');
    }
    assert forall|i: int, at: int|
        0 <= i < playlists.len() && playlists[i] is Some && 0 <= at && at + 3 <= playlists[i]->0@.len()
            && #[trigger] playlists[i]->0@[at] == '.' && playlists[i]->0@[at + 1] == 't'
            && playlists[i]->0@[at + 2] == 's' implies has_part(playlists[i]->0@, ".ts"@) by {
        assert(playlists[i]->0@.subrange(at, at + 3) =~= ".ts"@);
        assert(occurs_at(playlists[i]->0@, ".ts"@, at));
    }
}

/// What is cleared away at the start are the files with the extensions of playlists and
/// segments, and no others.
pub proof fn law_left_overs_are_playlists_and_segments(
    dir: Seq<char>,
    stem: Seq<char>,
    ext: Seq<char>,
)
    requires
        stem.len() > 0,
        !stem.contains('/'),
        ext.len() > 0,
        !ext.contains('/'),
        !ext.contains('.'),
    ensures
        is_stale(dir + seq!['/'] + stem + seq!['.'] + ext) <==> ext == seq!['m', '3', 'u', '8'] || ext
            == seq!['t', 's'],
        !stem.contains('.') ==> !is_stale(stem),
{
    reveal_strlit("m3u8");
    reveal_strlit("ts");
    assert("m3u8"@ =~= seq!['m', '3', 'u', '8']);
    assert("ts"@ =~= seq!['t', 's']);
    crate::paths::law_extension_follows_last_dot(dir, stem, ext);
}

/// A waiting viewer gives up once the start timeout has passed since the wait began, and not
/// before; until then the wait ends as soon as the stream is ready, which counts as an
/// access, and the next pause is a fifth longer, or a second.
pub proof fn law_wait_ends_in_time(
    v: ManagerView,
    key: Seq<char>,
    ready: bool,
    elapsed_nanos: u128,
    millis: u64,
    now: Timestamp,
    step: WaitStep,
    after: ManagerView,
)
    requires
        wait_step(v, key, ready, elapsed_nanos, millis, now, step, after),
    ensures
        step is TimedOut <==> elapsed_nanos >= v.settings.stream_start_timeout * 1_000_000_000,
        step is Ready <==> ready && elapsed_nanos < v.settings.stream_start_timeout * 1_000_000_000,
        step is Ready && v.active.contains_key(key) ==> after.active[key].last_accessed == now,
        !(step is Ready) ==> after == v,
        step is Sleep ==> {
            &&& step->millis == millis
            &&& 5 * step->next_millis <= 6 * millis < 5 * (step->next_millis + 1) || (
            step->next_millis == 1000 && 6 * millis >= 5000)
            &&& step->next_millis <= 1000
        },
{
}

/// A viewer waits for nothing only where the stream runs and is ready, has it started only
/// where it neither runs nor is pending, and else waits for what goes on.
pub proof fn law_wait_begins_where_needed(
    v: ManagerView,
    key: Seq<char>,
    ready: bool,
    now: Timestamp,
    step: WaitStart,
    after: ManagerView,
)
    requires
        wait_start(v, key, ready, now, step, after),
    ensures
        step is Ready <==> v.active.contains_key(key) && ready,
        step is Start <==> !v.active.contains_key(key) && !v.pending.contains_key(key),
        step is Ready ==> after.active[key].last_accessed == now,
        !(step is Ready) ==> after == v,
{
}

/// A stream that may be started is, with a plan for that very stream.
pub proof fn law_launch_is_for_the_stream(
    v: ManagerView,
    key: Seq<char>,
    maxrates: Seq<u32>,
    now: Timestamp,
    step: StartStep,
    after: ManagerView,
)
    requires
        start_step(v, key, maxrates, now, step, after),
        !v.active.contains_key(key),
        !v.pending.contains_key(key),
        v.active.dom().len() + v.launching.len() < v.settings.max_concurrent_streams,
    ensures
        step is Launch,
        step->0@ == plan_for(v.settings.launch, key, maxrates),
        after.pending.contains_key(key),
        after.pending[key] == now,
{
}

/// After a shutdown nothing runs, nothing is being started and no metrics wait.
pub proof fn law_shutdown_leaves_nothing(v: ManagerView, order: Seq<Seq<char>>, now: Timestamp)
    requires
        order.to_set() == v.active.dom(),
    ensures
        v.shut_down(order, now).active == Map::<Seq<char>, StreamInfo>::empty(),
        v.shut_down(order, now).pending == Map::<Seq<char>, Timestamp>::empty(),
        v.shut_down(order, now).places() == 0,
        v.metrics.enabled ==> v.shut_down(order, now).metrics.waiting.len() == 0,
{
    let w = ManagerView {
        metrics: v.metrics.flushed(now),
        pending: Map::empty(),
        launching: Set::empty(),
        ..v
    };
    lemma_stopped_all(w, order);
    assert(w.active.remove_keys(order.to_set()) =~= Map::<Seq<char>, StreamInfo>::empty());
}

/// A stream that was stopped does not run, has no viewers and no segment in the cache; the
/// segments of other streams stay.
pub proof fn law_stopped_stream_is_gone(v: ManagerView, key: Seq<char>, now: Timestamp)
    requires
        v.sessions.consistent(),
    ensures
        !v.stopped(key).active.contains_key(key),
        v.stopped(key).sessions.stream_viewers(key, now) == 0,
        forall|entry: Seq<char>| #[trigger]
            v.stopped(key).cache.entries.contains(entry) <==> v.cache.entries.contains(entry)
                && !is_entry_of(entry, key),
        forall|entry: Seq<char>, found: Option<CachedSegment>|
            v.cache.entries.contains(entry) && is_entry_of(entry, key)
                ==> #[trigger] v.stopped(key).cache.lookup(entry, found) is Load,
        v.stopped(key).stopped(key).active == v.stopped(key).active,
        v.stopped(key).stopped(key).stats == v.stopped(key).stats,
{
    crate::sessions::law_cleared_stream_has_no_viewers(v.sessions, key, key, now);
    assert(v.stopped(key).stopped(key).active =~= v.stopped(key).active);
}

/// The pauses of a waiting viewer never get shorter and never exceed a second.
pub proof fn law_pauses_grow(millis: u64)
    requires
        millis <= 1000,
    ensures
        millis <= next_interval(millis) <= 1000,
{
}

/// Metrics are taken once: directly afterwards none are due, so that nothing served is
/// reported twice.
pub proof fn law_metrics_are_taken_once(v: ManagerView, now: Timestamp, key: Seq<char>)
    requires
        v.active.contains_key(key),
    ensures
        !metrics_due(v.metered(now).active[key], now),
        metrics_due(v.active[key], now) ==> served(v.metered(now).active[key], now).bytes == 0,
        !metrics_due(v.active[key], now) ==> v.metered(now).active[key] == v.active[key],
{
}

/// Metrics are taken of exactly the streams for which at least a millisecond has passed since
/// they were last taken. What such a stream served then counts from nothing again, from that
/// moment on; when it started, when it was asked for and its playlists stay.
pub proof fn law_metrics_start_anew(
    v: ManagerView,
    order: Seq<Seq<char>>,
    key: Seq<char>,
    now: Timestamp,
)
    requires
        order.to_set() == v.active.dom(),
    ensures
        ({
            let due = v.active.contains_key(key) && now.nanos() - v.active[key].last_metrics_timestamp.nanos()
                >= 1_000_000;
            let (a, b) = (v.active[key], v.metered(now).active[key]);
            &&& v.due_among(order, now).contains(key) <==> due
            &&& due ==> {
                &&& b.bytes_served == 0 && b.requests_served == 0 && b.segments_served == 0
                &&& b.cache_hits == 0 && b.cache_misses == 0
                &&& b.last_metrics_timestamp == now
                &&& b.started_at == a.started_at && b.last_accessed == a.last_accessed
                &&& b.playlists_served == a.playlists_served
            }
            &&& v.active.contains_key(key) && !due ==> b == a
            &&& v.metered(now).active.dom() == v.active.dom()
            &&& v.metered(now).stats == v.stats && v.metered(now).pending == v.pending
        }),
{
    lemma_filter_contains(order, |k: Seq<char>| metrics_due(v.active[k], now), key);
    assert(order.contains(key) <==> order.to_set().contains(key));
    assert(v.metered(now).active.dom() =~= v.active.dom());
}

/// A crash counts as a failure and leaves no viewer of the stream; an attempt that could not
/// write its list of renditions frees its place and leaves the stream pending; a stop and a
/// shutdown leave the settings as they are.
pub proof fn law_ends_leave_no_viewers(v: ManagerView, key: Seq<char>, now: Timestamp)
    requires
        v.sessions.consistent(),
    ensures
        v.crashed(key).sessions.stream_viewers(key, now) == 0,
        v.crashed(key).pending == v.pending,
        v.crashed(key).cache == v.cache,
        !v.unwritten(key).launching.contains(key),
        v.unwritten(key).pending == v.pending,
        v.unwritten(key).active == v.active,
        v.unwritten(key).stats == v.stats,
        v.stopped(key).settings == v.settings,
{
    crate::sessions::law_cleared_stream_has_no_viewers(v.sessions, key, key, now);
}

/// Each setting reaches what it is for, and a manager starts with nothing done.
pub proof fn law_settings_reach_their_place(m: StreamManager, config: Config, now: Timestamp)
    requires
        m.follows(config, now),
    ensures
        m@.settings.launch.host == config.rtmp.source_host@,
        m@.settings.launch.port == decimal(config.rtmp.source_port as nat),
        m@.settings.launch.hls_path == config.server.hls_path@,
        config.ffmpeg.hls_time <= u32::MAX ==> m@.settings.launch.hls_time == config.ffmpeg.hls_time,
        config.ffmpeg.hls_list_size <= u32::MAX ==> m@.settings.launch.hls_list_size
            == config.ffmpeg.hls_list_size,
        config.ffmpeg.rw_timeout <= u32::MAX ==> m@.settings.launch.rw_timeout
            == config.ffmpeg.rw_timeout,
        m@.settings.launch.adaptive <==> config.abr.enabled && config.abr.variants@.len() > 0,
        m@.settings.launch.ladder == ladder(config.abr.variants@),
        m@.settings.stream_timeout == config.stream.stream_timeout,
        m@.settings.stream_start_timeout == config.stream.stream_start_timeout,
        m@.settings.max_concurrent_streams == config.stream.max_concurrent_streams,
        m@.settings.server_started_at == now,
        m@.sessions.timeout == config.viewer.timeout_seconds,
        m@.sessions.tracking == config.viewer.tracking_enabled,
        m@.sessions.total_viewers(now) == 0,
        m@.cache.max_entries == config.cache.max_entries,
        m@.cache.max_file_size == config.cache.max_segment_size,
        m@.cache.ttl_seconds == config.cache.ttl_seconds,
        m@.cache.stats.hits == 0 && m@.cache.stats.misses == 0 && m@.cache.stats.memory_bytes == 0,
        m@.stats.started == 0 && m@.stats.stopped == 0 && m@.stats.failed == 0,
        m@.stats.requests == 0 && m@.stats.bytes_served == 0,
        m@.stats.segments_served == 0 && m@.stats.playlists_served == 0,
        m@.places() == 0,
        m@.metrics.enabled == config.elasticsearch.enabled,
        m@.metrics.index_prefix == config.elasticsearch.index_prefix@,
        m@.metrics.batch_size == config.elasticsearch.batch_size,
        m@.metrics.flush_interval_seconds == config.elasticsearch.flush_interval_seconds,
        config.elasticsearch.server_name is Some ==> m@.metrics.server_name@
            == config.elasticsearch.server_name->0@,
        m@.metrics.waiting.len() == 0,
{
    assert(m@.active.dom() =~= Set::<Seq<char>>::empty());
    assert(m@.sessions.sessions.dom().filter(|id: Seq<char>| m@.sessions.live(id, now)) =~= Set::<
        Seq<char>,
    >::empty());
}

/// A round of cleaning forgets every session that was last seen more whole seconds ago than
/// the viewer timeout, and those of the streams that it stops; it keeps every other session
/// as it was, and what is counted, cached of other streams and waiting to be sent.
pub proof fn law_cleaning_forgets_silent_viewers(
    v: ManagerView,
    order: Seq<Seq<char>>,
    now: Timestamp,
    id: Seq<char>,
)
    requires
        order.to_set() == v.active.dom(),
        v.sessions.consistent(),
        v.sessions.tracking,
    ensures
        ({
            let stopped = v.idle_among(order, now);
            let (before, after) = (v.sessions.sessions, v.cleaned(stopped, now).sessions.sessions);
            &&& after.contains_key(id) <==> before.contains_key(id) && seconds_between(
                now,
                before[id].last_seen,
            ) <= v.sessions.timeout as i64 && !stopped.contains(before[id].stream_key)
            &&& after.contains_key(id) ==> after[id] == before[id]
            &&& v.cleaned(stopped, now).history == v.history
            &&& v.cleaned(stopped, now).metrics == v.metrics
            &&& v.cleaned(stopped, now).pending == v.pending
            &&& v.cleaned(stopped, now).settings == v.settings
        }),
{
    let stopped = v.idle_among(order, now);
    lemma_stopped_all(v, stopped);
    lemma_stopped_all_sessions(v, stopped, id);
}

proof fn lemma_stopped_all_sessions(v: ManagerView, keys: Seq<Seq<char>>, id: Seq<char>)
    requires
        v.sessions.consistent(),
        v.sessions.tracking,
    ensures
        ({
            let w = v.stopped_all(keys);
            &&& w.sessions.consistent()
            &&& w.sessions.tracking
            &&& w.sessions.timeout == v.sessions.timeout
            &&& w.history == v.history
            &&& w.metrics == v.metrics
            &&& w.sessions.sessions.contains_key(id) <==> v.sessions.sessions.contains_key(id)
                && !keys.contains(v.sessions.sessions[id].stream_key)
            &&& w.sessions.sessions.contains_key(id) ==> w.sessions.sessions[id]
                == v.sessions.sessions[id]
        }),
    decreases keys.len(),
{
    if keys.len() > 0 {
        let front = keys.drop_last();
        lemma_stopped_all_sessions(v, front, id);
        let w = v.stopped_all(front).sessions;
        crate::sessions::lemma_cleared_consistent(w, keys.last());
        crate::sessions::law_clearing_spares_other_streams(w, keys.last(), id);
        let stream = v.sessions.sessions[id].stream_key;
        assert(keys.contains(stream) <==> front.contains(stream) || stream == keys.last()) by {
            if keys.contains(stream) {
                let i = keys.index_of(stream);
                if i < front.len() {
                    assert(front[i] == stream);
                }
            }
            if front.contains(stream) {
                assert(keys[front.index_of(stream)] == stream);
            }
            assert(keys[keys.len() - 1] == keys.last());
        }
    }
}

/// A launch is granted exactly where the stream neither runs nor is pending and fewer streams
/// run or are being started than may; a request is then answered with a launch, and only
/// then.
pub proof fn law_launch_where_granted(
    v: ManagerView,
    key: Seq<char>,
    maxrates: Seq<u32>,
    now: Timestamp,
    step: StartStep,
    after: ManagerView,
)
    requires
        start_step(v, key, maxrates, now, step, after),
    ensures
        v.grants(key) <==> !v.active.contains_key(key) && !v.pending.contains_key(key)
            && v.active.dom().len() + v.launching.len() < v.settings.max_concurrent_streams,
        step is Launch <==> v.grants(key),
        !v.grants(key) ==> after == v,
{
}

} // verus!
