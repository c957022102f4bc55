//! The life of streams whose encoders are processes of their own.
use crate::cache::{is_entry_of, CacheStats, CacheView, CachedSegment, SegmentCache};
use crate::clock::{elapsed_seconds, seconds_between, utc_now, Timestamp};
use crate::launch::{source_url, stream_dir};
use crate::manager::{next_interval, WaitStart};
use crate::metrics::{HistoryView, MetricsHistory};
use crate::models::Stats;
use crate::paths::{join_path, joined, law_names_stand_below_directories};
use crate::registry::Registry;
use crate::sessions::{SessionManager, SessionView, SessionsView};
use crate::subprocess::handlers::StartFailure;
use crate::subprocess::models::StreamInfo;
use crate::text::{
    cat2, cat6, contains, decimal, has_part, law_decimal_reads_back, lemma_filter_contains, text_of,
    texts,
};
use crate::vars::{
    number_or, number_setting, read, setting, text_or, text_setting, truth_setting,
};
use crate::viewers::{as_count, viewer_hash, ViewerTracker, ViewerView, ViewersView};
use vstd::prelude::*;
use vstd::string::*;

verus! {

broadcast use vstd::string::group_string_axioms;

/// How long a stream that failed is not tried again, in seconds.
pub const RETRY_AFTER_SECONDS: i64 = 30;

/// How long a failure is remembered, in seconds.
pub const FORGET_AFTER_SECONDS: i64 = 300;

/// How long segments stay in the cache, in seconds.
pub const CACHE_TTL_SECONDS: u64 = 300;

/// The variables that set up the server, each as it is set, if it is.
#[derive(Debug, Clone, PartialEq)]
pub struct ManagerVars {
    pub source_host: Option<String>,
    pub source_port: Option<String>,
    pub hls_path: Option<String>,
    pub stream_timeout: Option<String>,
    pub max_concurrent_streams: Option<String>,
    pub stream_start_timeout: Option<String>,
    pub cache_max_entries: Option<String>,
    pub cache_max_segment_size: Option<String>,
    pub viewer_timeout_seconds: Option<String>,
    pub viewer_tracking_enabled: Option<String>,
}

/// The command that encodes a stream, and the directory that its files go to.
#[derive(Debug, Clone, PartialEq)]
pub struct EncoderCommand {
    pub stream_dir: String,
    pub program: String,
    pub args: Vec<String>,
}

/// The answer to a request to start a stream.
#[derive(Debug, PartialEq)]
pub enum StartStep {
    AlreadyActive,
    AlreadyPending,
    AtCapacity,
    /// The stream failed a short while ago.
    RecentlyFailed,
    /// This command is to be run.
    Launch(EncoderCommand),
}

impl StartStep {
    /// What the request is answered at once, whether the stream runs or will; nothing
    /// where the attempt to start it decides.
    pub fn answer(&self) -> (r: Option<bool>)
        ensures
            r == (match *self {
                StartStep::AlreadyActive => Some(true),
                StartStep::AlreadyPending => Some(true),
                StartStep::AtCapacity => Some(false),
                StartStep::RecentlyFailed => Some(false),
                StartStep::Launch(_) => None,
            }),
    {
        match self {
            StartStep::AlreadyActive => Some(true),
            StartStep::AlreadyPending => Some(true),
            StartStep::AtCapacity => Some(false),
            StartStep::RecentlyFailed => Some(false),
            StartStep::Launch(_) => None,
        }
    }
}

/// What a waiting viewer does next.
#[derive(Debug, Clone, Copy, PartialEq, Eq)]
pub enum WaitStep {
    Ready,
    /// The stream failed to start.
    Failed,
    Sleep { millis: u64, next_millis: u64 },
    TimedOut,
}

/// What does not change while the server runs.
pub struct ManagerSettings {
    pub host: Seq<char>,
    pub port: Seq<char>,
    pub hls_path: Seq<char>,
    pub stream_timeout: u64,
    pub max_concurrent_streams: usize,
    pub stream_start_timeout: u64,
    pub server_started_at: Timestamp,
}

/// The streams, the viewers and the counts.
#[verifier::ext_equal]
pub struct ManagerView {
    pub settings: ManagerSettings,
    pub active: Map<Seq<char>, StreamInfo>,
    pub pending: Map<Seq<char>, Timestamp>,
    pub failed: Map<Seq<char>, Timestamp>,
    pub stats: Stats,
    pub sessions: SessionsView,
    pub viewers: ViewersView,
    pub cache: CacheView,
    pub history: HistoryView,
}

/// The arguments of the command that encodes a stream.
pub open spec fn encoder_args(s: ManagerSettings, key: Seq<char>) -> Seq<Seq<char>> {
    let dir = stream_dir(s.hls_path, key);
    seq![
        "-nostdin"@,
        "-loglevel"@,
        "warning"@,
        "-i"@,
        source_url(s.host, s.port, key),
        "-c"@,
        "copy"@,
        "-f"@,
        "hls"@,
        "-hls_time"@,
        "5"@,
        "-hls_list_size"@,
        "20"@,
        "-hls_flags"@,
        "delete_segments+append_list"@,
        "-hls_segment_filename"@,
        joined(dir, key + "_%03d.ts"@),
        joined(dir, "index.m3u8"@),
    ]
}

/// A command encodes a stream.
pub open spec fn encodes(c: EncoderCommand, s: ManagerSettings, key: Seq<char>) -> bool {
    &&& c.stream_dir@ == stream_dir(s.hls_path, key)
    &&& c.program@ == "ffmpeg"@
    &&& texts(c.args@) == encoder_args(s, key)
}

/// A stream that nobody has asked for in a while.
pub open spec fn is_idle(info: StreamInfo, now: Timestamp, timeout: u64) -> bool {
    seconds_between(now, info.last_accessed) > timeout as i64
}

/// The number of a process; zero where it has none any more.
pub open spec fn process_number(pid: Option<u32>) -> u32 {
    match pid {
        Some(n) => n,
        None => 0,
    }
}

impl ManagerView {
    /// A stream failed a short while before `now`.
    pub open spec fn failed_lately(self, key: Seq<char>, now: Timestamp) -> bool {
        self.failed.contains_key(key) && seconds_between(now, self.failed[key]) < RETRY_AFTER_SECONDS
    }

    /// How many streams run or are being started.
    pub open spec fn places(self) -> nat {
        self.active.dom().len() + self.pending.dom().len()
    }

    /// As many streams run or are being started as may run at once.
    pub open spec fn at_limit(self) -> bool {
        self.places() >= self.settings.max_concurrent_streams
    }

    /// No more streams run or are being started than may run at once.
    pub open spec fn within_limit(self) -> bool {
        &&& self.active.dom().finite()
        &&& self.pending.dom().finite()
        &&& self.places() <= self.settings.max_concurrent_streams
    }

    /// A stream is being started since `now`.
    pub open spec fn began(self, key: Seq<char>, now: Timestamp) -> ManagerView {
        ManagerView { pending: self.pending.insert(key, now), ..self }
    }

    /// The process for a stream runs since `now`.
    pub open spec fn started(self, key: Seq<char>, pid: u32, now: Timestamp) -> ManagerView {
        ManagerView {
            active: self.active.insert(key, StreamInfo { pid, started_at: now, last_accessed: now }),
            pending: self.pending.remove(key),
            stats: Stats { started: self.stats.started.wrapping_add(1), ..self.stats },
            ..self
        }
    }

    /// The process for a stream could not be started.
    pub open spec fn start_failed(self, key: Seq<char>, now: Timestamp) -> ManagerView {
        ManagerView {
            pending: self.pending.remove(key),
            failed: self.failed.insert(key, now),
            stats: Stats { failed: self.stats.failed.wrapping_add(1), ..self.stats },
            ..self
        }
    }

    /// A stream was stopped. Its viewers and its cached segments go even where it did not
    /// run.
    pub open spec fn stopped(self, key: Seq<char>) -> ManagerView {
        ManagerView {
            active: self.active.remove(key),
            stats: if self.active.contains_key(key) {
                Stats { stopped: self.stats.stopped.wrapping_add(1), ..self.stats }
            } else {
                self.stats
            },
            sessions: self.sessions.cleared(key),
            cache: self.cache.without_stream(key),
            viewers: self.viewers.cleared(key),
            ..self
        }
    }

    /// Several streams were stopped, one after the other.
    pub open spec fn stopped_all(self, keys: Seq<Seq<char>>) -> ManagerView
        decreases keys.len(),
    {
        if keys.len() == 0 {
            self
        } else {
            self.stopped_all(keys.drop_last()).stopped(keys.last())
        }
    }

    /// A stream was asked for at `now`.
    pub open spec fn accessed(self, key: Seq<char>, now: Timestamp) -> ManagerView {
        if self.active.contains_key(key) {
            ManagerView {
                active: self.active.insert(
                    key,
                    StreamInfo { last_accessed: now, ..self.active[key] },
                ),
                ..self
            }
        } else {
            self
        }
    }

    /// The streams that are idle at `now`, out of some.
    pub open spec fn idle_among(self, keys: Seq<Seq<char>>, now: Timestamp) -> Seq<Seq<char>> {
        keys.filter(|k: Seq<char>| is_idle(self.active[k], now, self.settings.stream_timeout))
    }

    /// The failures that are still remembered at `now`.
    pub open spec fn recent_failures(self, now: Timestamp) -> Map<Seq<char>, Timestamp> {
        self.failed.restrict(
            self.failed.dom().filter(
                |k: Seq<char>| seconds_between(now, self.failed[k]) < FORGET_AFTER_SECONDS,
            ),
        )
    }

    /// The idle streams were stopped, and old failures, viewers and sessions forgotten.
    pub open spec fn cleaned(self, idle: Seq<Seq<char>>, now: Timestamp) -> ManagerView {
        let v = self.stopped_all(idle);
        ManagerView {
            failed: v.recent_failures(now),
            viewers: v.viewers.swept(now),
            sessions: v.sessions.swept(now),
            ..v
        }
    }
}

/// What a request to start a stream is answered, and what it changes.
pub open spec fn start_step(
    before: ManagerView,
    key: Seq<char>,
    now: Timestamp,
    step: StartStep,
    after: ManagerView,
) -> bool {
    if before.active.contains_key(key) {
        step is AlreadyActive && after == before
    } else if before.pending.contains_key(key) {
        step is AlreadyPending && after == before
    } else if before.at_limit() {
        step is AtCapacity && after == before
    } else if before.failed_lately(key, now) {
        step is RecentlyFailed && after == before
    } else {
        &&& step is Launch
        &&& encodes(step->0, before.settings, key)
        &&& after == before.began(key, now)
    }
}

/// What a viewer has to wait for, and what the question changes.
pub open spec fn wait_start(
    before: ManagerView,
    key: Seq<char>,
    ready: bool,
    now: Timestamp,
    step: WaitStart,
    after: ManagerView,
) -> bool {
    if before.active.contains_key(key) && ready {
        step == WaitStart::Ready && after == before.accessed(key, now)
    } else if before.active.contains_key(key) || before.pending.contains_key(key) {
        step == WaitStart::Wait && after == before
    } else {
        step == WaitStart::Start && after == before
    }
}

/// What a viewer who has waited for some time does next, and what that changes.
pub open spec fn wait_step(
    before: ManagerView,
    key: Seq<char>,
    ready: bool,
    elapsed_nanos: u128,
    millis: u64,
    now: Timestamp,
    step: WaitStep,
    after: ManagerView,
) -> bool {
    if elapsed_nanos >= before.settings.stream_start_timeout * 1_000_000_000 {
        step == WaitStep::TimedOut && after == before
    } else if ready {
        step == WaitStep::Ready && after == before.accessed(key, now)
    } else if before.failed.contains_key(key) {
        step == WaitStep::Failed && after == before
    } else {
        step == (WaitStep::Sleep { millis, next_millis: next_interval(millis) }) && after == before
    }
}

/// The streams that run, that are being started and that failed, their viewers, and what
/// is counted.
pub struct StreamManager {
    pub srs_host: String,
    pub srs_port: String,
    pub hls_path: String,
    pub stream_timeout: u64,
    pub max_concurrent_streams: usize,
    pub stream_start_timeout: u64,
    pub active_streams: Registry<StreamInfo>,
    pub pending_streams: Registry<Timestamp>,
    pub failed_streams: Registry<Timestamp>,
    pub stats: Stats,
    pub cache: SegmentCache,
    pub viewer_tracker: ViewerTracker,
    pub session_manager: SessionManager,
    pub server_started_at: Timestamp,
    pub metrics_history: MetricsHistory,
}

impl StreamManager {
    pub open spec fn view(&self) -> ManagerView {
        ManagerView {
            settings: ManagerSettings {
                host: self.srs_host@,
                port: self.srs_port@,
                hls_path: self.hls_path@,
                stream_timeout: self.stream_timeout,
                max_concurrent_streams: self.max_concurrent_streams,
                stream_start_timeout: self.stream_start_timeout,
                server_started_at: self.server_started_at,
            },
            active: self.active_streams@,
            pending: self.pending_streams@,
            failed: self.failed_streams@,
            stats: self.stats,
            sessions: self.session_manager@,
            viewers: self.viewer_tracker@,
            cache: self.cache@,
            history: self.metrics_history@,
        }
    }

    pub open spec fn wf(&self) -> bool {
        &&& self.active_streams.wf()
        &&& self.pending_streams.wf()
        &&& self.failed_streams.wf()
        &&& self.session_manager.wf()
        &&& self.viewer_tracker.wf()
        &&& self.metrics_history@.bounded()
        &&& self.cache.wf()
    }

    /// The manager follows the variables, with nothing done since `now`.
    pub open spec fn follows(&self, vars: ManagerVars, now: Timestamp) -> bool {
        &&& self@.settings.host == text_setting(text_of(vars.source_host), "rtmp.example.com"@)
        &&& self@.settings.port == text_setting(text_of(vars.source_port), "1935"@)
        &&& self@.settings.hls_path == text_setting(text_of(vars.hls_path), "./hls"@)
        &&& self@.settings.stream_timeout == number_setting(
            text_of(vars.stream_timeout),
            u64::MAX as nat,
            30,
        )
        &&& self@.settings.max_concurrent_streams == number_setting(
            text_of(vars.max_concurrent_streams),
            usize::MAX as nat,
            50,
        )
        &&& self@.settings.stream_start_timeout == number_setting(
            text_of(vars.stream_start_timeout),
            u64::MAX as nat,
            15,
        )
        &&& self@.settings.server_started_at == now
        &&& self@.active == Map::<Seq<char>, StreamInfo>::empty()
        &&& self@.pending == Map::<Seq<char>, Timestamp>::empty()
        &&& self@.failed == Map::<Seq<char>, Timestamp>::empty()
        &&& self@.stats == Stats::zero()
        &&& self@.cache.max_entries == number_setting(
            text_of(vars.cache_max_entries),
            usize::MAX as nat,
            200,
        )
        &&& self@.cache.max_file_size == number_setting(
            text_of(vars.cache_max_segment_size),
            usize::MAX as nat,
            10_485_760,
        )
        &&& self@.cache.ttl_seconds == CACHE_TTL_SECONDS
        &&& self@.cache.stats == CacheStats::zero()
        &&& self@.cache.entries == Set::<Seq<char>>::empty()
        &&& self@.cache.dropped == Set::<Seq<char>>::empty()
        &&& self@.sessions.sessions == Map::<Seq<char>, SessionView>::empty()
        &&& self@.sessions.streams == Map::<Seq<char>, Set<Seq<char>>>::empty()
        &&& self@.viewers.streams == Map::<Seq<char>, Map<Seq<char>, ViewerView>>::empty()
        &&& self@.sessions.timeout == number_setting(
            text_of(vars.viewer_timeout_seconds),
            u64::MAX as nat,
            30,
        )
        &&& self@.viewers.timeout == self@.sessions.timeout
        &&& self@.sessions.tracking == truth_setting(text_of(vars.viewer_tracking_enabled), true)
        &&& self@.viewers.tracking == self@.sessions.tracking
        &&& self@.history == HistoryView::fresh(now)
    }

    /// A manager that starts now.
    pub fn new(vars: &ManagerVars) -> (r: Self)
        ensures
            r.wf(),
            exists|now: Timestamp| #[trigger] r.follows(*vars, now),
    {
        Self::starting_at(vars, utc_now())
    }

    /// A manager that starts at `now`.
    pub fn starting_at(vars: &ManagerVars, now: Timestamp) -> (r: Self)
        ensures
            r.wf(),
            r.follows(*vars, now),
    {
        let timeout = read(&vars.viewer_timeout_seconds);
        let tracking = read(&vars.viewer_tracking_enabled);
        StreamManager {
            srs_host: text_or(read(&vars.source_host), "rtmp.example.com"),
            srs_port: text_or(read(&vars.source_port), "1935"),
            hls_path: text_or(read(&vars.hls_path), "./hls"),
            stream_timeout: number_or(read(&vars.stream_timeout), u64::MAX, 30),
            max_concurrent_streams: number_or(
                read(&vars.max_concurrent_streams),
                usize::MAX as u64,
                50,
            ) as usize,
            stream_start_timeout: number_or(read(&vars.stream_start_timeout), u64::MAX, 15),
            active_streams: Registry::new(),
            pending_streams: Registry::new(),
            failed_streams: Registry::new(),
            stats: Stats::new(),
            cache: SegmentCache::new(
                number_or(read(&vars.cache_max_entries), usize::MAX as u64, 200) as usize,
                number_or(read(&vars.cache_max_segment_size), usize::MAX as u64, 10_485_760) as usize,
                CACHE_TTL_SECONDS,
            ),
            viewer_tracker: ViewerTracker::new(timeout, tracking),
            session_manager: SessionManager::from_vars(timeout, tracking),
            server_started_at: now,
            metrics_history: MetricsHistory::starting_at(now),
        }
    }

    /// Where the files of a stream stand.
    pub fn stream_dir(&self, stream_key: &str) -> (r: String)
        ensures
            r@ == stream_dir(self@.settings.hls_path, stream_key@),
    {
        join_path(self.hls_path.as_str(), stream_key)
    }

    fn encoder_command(&self, stream_key: &str) -> (r: EncoderCommand)
        ensures
            encodes(r, self@.settings, stream_key@),
    {
        let url = cat6(
            "rtmp://",
            self.srs_host.as_str(),
            ":",
            self.srs_port.as_str(),
            "/live/",
            stream_key,
        );
        let dir = self.stream_dir(stream_key);
        let mut args: Vec<String> = Vec::new();
        args.push("-nostdin".to_owned());
        args.push("-loglevel".to_owned());
        args.push("warning".to_owned());
        args.push("-i".to_owned());
        args.push(url);
        args.push("-c".to_owned());
        args.push("copy".to_owned());
        args.push("-f".to_owned());
        args.push("hls".to_owned());
        args.push("-hls_time".to_owned());
        args.push("5".to_owned());
        args.push("-hls_list_size".to_owned());
        args.push("20".to_owned());
        args.push("-hls_flags".to_owned());
        args.push("delete_segments+append_list".to_owned());
        args.push("-hls_segment_filename".to_owned());
        args.push(join_path(dir.as_str(), cat2(stream_key, "_%03d.ts").as_str()));
        args.push(join_path(dir.as_str(), "index.m3u8"));
        assert(texts(args@) =~= encoder_args(self@.settings, stream_key@));
        EncoderCommand { stream_dir: dir, program: "ffmpeg".to_owned(), args }
    }

    /// Whether as many streams run or are being started as may run at once.
    fn at_limit(&self) -> (r: bool)
        requires
            self.wf(),
        ensures
            r == self@.at_limit(),
    {
        let running: usize = self.active_streams.len();
        running >= self.max_concurrent_streams || self.pending_streams.len()
            >= self.max_concurrent_streams - running
    }

    /// Asks for a stream to be started now.
    pub fn start_stream(&mut self, stream_key: &str) -> (r: StartStep)
        requires
            old(self).wf(),
        ensures
            final(self).wf(),
            exists|now: Timestamp| #[trigger]
                start_step(old(self)@, stream_key@, now, r, final(self)@),
    {
        let now = utc_now();
        self.start_stream_at(stream_key, now)
    }

    /// Asks for a stream to be started at `now`.
    pub fn start_stream_at(&mut self, stream_key: &str, now: Timestamp) -> (r: StartStep)
        requires
            old(self).wf(),
        ensures
            final(self).wf(),
            start_step(old(self)@, stream_key@, now, r, final(self)@),
    {
        if self.active_streams.contains_key(stream_key) {
            return StartStep::AlreadyActive;
        }
        if self.pending_streams.contains_key(stream_key) {
            return StartStep::AlreadyPending;
        }
        if self.at_limit() {
            return StartStep::AtCapacity;
        }
        if let Some(failed) = self.failed_streams.get(stream_key) {
            if elapsed_seconds(now, *failed) < RETRY_AFTER_SECONDS {
                return StartStep::RecentlyFailed;
            }
        }
        self.pending_streams.insert(stream_key.to_owned(), now);
        StartStep::Launch(self.encoder_command(stream_key))
    }

    /// Notes now whether the process for a stream was started, and with which number, if
    /// it has one.
    pub fn finish_start(&mut self, stream_key: &str, spawned: Option<Option<u32>>) -> (r: bool)
        requires
            old(self).wf(),
        ensures
            final(self).wf(),
            r == spawned is Some,
            match spawned {
                Some(pid) => exists|now: Timestamp|
                    final(self)@ == #[trigger] old(self)@.started(
                        stream_key@,
                        process_number(pid),
                        now,
                    ),
                None => exists|now: Timestamp|
                    final(self)@ == #[trigger] old(self)@.start_failed(stream_key@, now),
            },
    {
        let now = utc_now();
        self.finish_start_at(stream_key, spawned, now)
    }

    /// Notes at `now` whether the process for a stream was started.
    pub fn finish_start_at(&mut self, stream_key: &str, spawned: Option<Option<u32>>, now: Timestamp) -> (r:
        bool)
        requires
            old(self).wf(),
        ensures
            final(self).wf(),
            r == spawned is Some,
            match spawned {
                Some(pid) => final(self)@ == old(self)@.started(
                    stream_key@,
                    process_number(pid),
                    now,
                ),
                None => final(self)@ == old(self)@.start_failed(stream_key@, now),
            },
    {
        match spawned {
            Some(pid) => {
                let pid: u32 = match pid {
                    Some(n) => n,
                    None => 0,
                };
                self.active_streams.insert(
                    stream_key.to_owned(),
                    StreamInfo { pid, started_at: now, last_accessed: now },
                );
                self.pending_streams.remove(stream_key);
                self.stats.started = self.stats.started.wrapping_add(1);
                true
            },
            None => {
                self.pending_streams.remove(stream_key);
                self.failed_streams.insert(stream_key.to_owned(), now);
                self.stats.failed = self.stats.failed.wrapping_add(1);
                false
            },
        }
    }

    /// Stops a stream, and says whether it ran: then its process is to be ended.
    pub fn stop_stream(&mut self, stream_key: &str) -> (r: bool)
        requires
            old(self).wf(),
        ensures
            final(self).wf(),
            r == old(self)@.active.contains_key(stream_key@),
            final(self)@ == old(self)@.stopped(stream_key@),
    {
        let ran = self.active_streams.remove(stream_key).is_some();
        if ran {
            self.stats.stopped = self.stats.stopped.wrapping_add(1);
        }
        self.viewer_tracker.clear_stream_viewers(stream_key);
        self.session_manager.clear_stream_sessions(stream_key);
        self.cache.invalidate_stream(stream_key);
        ran
    }

    /// Where the playlist of a stream stands.
    pub fn playlist_path(&self, stream_key: &str) -> (r: String)
        ensures
            r@ == joined(stream_dir(self@.settings.hls_path, stream_key@), "index.m3u8"@),
    {
        join_path(self.stream_dir(stream_key).as_str(), "index.m3u8")
    }

    /// Whether a stream is ready, given what its playlist holds: whether it names a
    /// segment.
    pub fn stream_ready(content: &Option<String>) -> (r: bool)
        ensures
            r == (content is Some && has_part(content->0@, ".ts"@)),
    {
        match content {
            Some(content) => contains(content.as_str(), ".ts"),
            None => false,
        }
    }

    /// What a viewer who asks for a stream now has to wait for.
    pub fn wait_for_stream(&mut self, stream_key: &str, ready: bool) -> (r: WaitStart)
        requires
            old(self).wf(),
        ensures
            final(self).wf(),
            exists|now: Timestamp| #[trigger]
                wait_start(old(self)@, stream_key@, ready, now, r, final(self)@),
    {
        let now = utc_now();
        self.wait_for_stream_at(stream_key, ready, now)
    }

    /// What a viewer who asks for a stream at `now` has to wait for.
    pub fn wait_for_stream_at(&mut self, stream_key: &str, ready: bool, now: Timestamp) -> (r: WaitStart)
        requires
            old(self).wf(),
        ensures
            final(self).wf(),
            wait_start(old(self)@, stream_key@, ready, now, r, final(self)@),
    {
        let active = self.active_streams.contains_key(stream_key);
        if active && ready {
            self.update_stream_access_at(stream_key, now);
            return WaitStart::Ready;
        }
        if active || self.pending_streams.contains_key(stream_key) {
            WaitStart::Wait
        } else {
            WaitStart::Start
        }
    }

    /// Whether a viewer for whom a stream had to be started goes on waiting, given what the
    /// request to start it was answered: a refusal or a failure ends the wait at once.
    pub fn waits_after_start(started: Result<bool, StartFailure>) -> (r: bool)
        ensures
            r == (started == Ok::<bool, StartFailure>(true)),
    {
        match started {
            Ok(running) => running,
            Err(_) => false,
        }
    }

    /// What a viewer who has waited since `elapsed_nanos` does now.
    pub fn poll_stream(&mut self, stream_key: &str, ready: bool, elapsed_nanos: u128, millis: u64) -> (r:
        WaitStep)
        requires
            old(self).wf(),
        ensures
            final(self).wf(),
            exists|now: Timestamp| #[trigger]
                wait_step(
                    old(self)@,
                    stream_key@,
                    ready,
                    elapsed_nanos,
                    millis,
                    now,
                    r,
                    final(self)@,
                ),
    {
        let now = utc_now();
        self.poll_stream_at(stream_key, ready, elapsed_nanos, millis, now)
    }

    /// What a viewer who has waited since `elapsed_nanos` does at `now`.
    pub fn poll_stream_at(
        &mut self,
        stream_key: &str,
        ready: bool,
        elapsed_nanos: u128,
        millis: u64,
        now: Timestamp,
    ) -> (r: WaitStep)
        requires
            old(self).wf(),
        ensures
            final(self).wf(),
            wait_step(old(self)@, stream_key@, ready, elapsed_nanos, millis, now, r, final(self)@),
    {
        let limit: u128 = self.stream_start_timeout as u128 * 1_000_000_000;
        if elapsed_nanos >= limit {
            return WaitStep::TimedOut;
        }
        if ready {
            self.update_stream_access_at(stream_key, now);
            return WaitStep::Ready;
        }
        if self.failed_streams.contains_key(stream_key) {
            return WaitStep::Failed;
        }
        let longer: u128 = millis as u128 * 6 / 5;
        let next_millis: u64 = if longer > 1000 {
            1000
        } else {
            longer as u64
        };
        WaitStep::Sleep { millis, next_millis }
    }

    /// Notes that a stream was asked for now.
    pub fn update_stream_access(&mut self, stream_key: &str)
        requires
            old(self).wf(),
        ensures
            final(self).wf(),
            exists|now: Timestamp| final(self)@ == #[trigger] old(self)@.accessed(stream_key@, now),
    {
        let now = utc_now();
        self.update_stream_access_at(stream_key, now);
    }

    /// Notes that a stream was asked for at `now`.
    pub fn update_stream_access_at(&mut self, stream_key: &str, now: Timestamp)
        requires
            old(self).wf(),
        ensures
            final(self).wf(),
            final(self)@ == old(self)@.accessed(stream_key@, now),
    {
        if let Some(info) = self.active_streams.get_mut(stream_key) {
            info.last_accessed = now;
        }
    }

    /// Notes a request of a viewer for a stream.
    pub fn track_viewer(&mut self, stream_key: &str, ip: &str, user_agent: Option<&str>)
        requires
            old(self).wf(),
        ensures
            final(self).wf(),
            exists|now: Timestamp|
                final(self)@ == (ManagerView {
                    viewers: #[trigger] old(self)@.viewers.noted(
                        stream_key@,
                        viewer_hash(ip@, setting(user_agent)),
                        now,
                    ),
                    ..old(self)@
                }),
    {
        let ghost before = self@;
        assert(before.viewers == self.viewer_tracker@);
        self.viewer_tracker.track_viewer(stream_key, ip, user_agent);
    }

    /// How many viewers a stream has, counted by address.
    pub fn get_stream_viewer_count(&self, stream_key: &str) -> (r: usize)
        requires
            self.wf(),
        ensures
            exists|now: Timestamp| r == #[trigger] self@.viewers.viewer_count(stream_key@, now),
    {
        assert(self@.viewers == self.viewer_tracker@);
        self.viewer_tracker.get_viewer_count(stream_key)
    }

    /// How many viewers there are, counted by address.
    pub fn get_total_viewer_count(&self) -> (r: usize)
        requires
            self.wf(),
        ensures
            exists|now: Timestamp| r == as_count(#[trigger] self@.viewers.total_viewers(now)),
    {
        assert(self@.viewers == self.viewer_tracker@);
        self.viewer_tracker.get_total_viewer_count()
    }

    /// The streams that are idle at `now`.
    pub fn idle_streams_at(&self, now: Timestamp) -> (r: Vec<String>)
        requires
            self.wf(),
        ensures
            texts(r@) == self@.idle_among(self.active_streams.order(), now),
    {
        let ghost order = self.active_streams.order();
        let ghost test = |k: Seq<char>| is_idle(self@.active[k], now, self.stream_timeout);
        let mut r: Vec<String> = Vec::new();
        let mut i: usize = 0;
        proof {
            self.active_streams.lemma_order();
            assert(order.take(0) =~= Seq::<Seq<char>>::empty());
            reveal(Seq::filter);
            assert(texts(r@) =~= order.take(0).filter(test));
        }
        while i < self.active_streams.len()
            invariant
                self.wf(),
                order == self.active_streams.order(),
                test == (|k: Seq<char>| is_idle(self@.active[k], now, self.stream_timeout)),
                0 <= i <= order.len(),
                texts(r@) == order.take(i as int).filter(test),
            decreases order.len() - i,
        {
            let ghost so_far = texts(r@);
            let info = self.active_streams.value_at(i);
            proof {
                self.active_streams.lemma_order();
                assert(self@.active[order[i as int]] == *info);
                assert(order.take(i + 1).drop_last() =~= order.take(i as int));
                reveal(Seq::filter);
            }
            if elapsed_seconds(now, info.last_accessed) > self.stream_timeout as i64 {
                r.push(self.active_streams.key_at(i).clone());
                assert(texts(r@) =~= so_far.push(order[i as int]));
            }
            i = i + 1;
        }
        assert(order.take(i as int) =~= order);
        r
    }

    /// Stops several streams, one after the other.
    fn stop_streams(&mut self, keys: &Vec<String>)
        requires
            old(self).wf(),
        ensures
            final(self).wf(),
            final(self)@ == old(self)@.stopped_all(texts(keys@)),
    {
        let ghost all = texts(keys@);
        let ghost before = self@;
        let mut i: usize = 0;
        assert(all.take(0) =~= Seq::<Seq<char>>::empty());
        while i < keys.len()
            invariant
                self.wf(),
                all == texts(keys@),
                0 <= i <= all.len(),
                self@ == before.stopped_all(all.take(i as int)),
            decreases all.len() - i,
        {
            assert(all.take(i + 1).drop_last() =~= all.take(i as int));
            assert(all.take(i + 1).last() == keys@[i as int]@);
            self.stop_stream(keys[i].as_str());
            i = i + 1;
        }
        assert(all.take(i as int) =~= all);
    }

    /// Forgets the failures that are too old at `now`.
    fn forget_failures_at(&mut self, now: Timestamp)
        requires
            old(self).wf(),
        ensures
            final(self).wf(),
            final(self)@ == (ManagerView {
                failed: old(self)@.recent_failures(now),
                ..old(self)@
            }),
    {
        let ghost before = self@;
        let ghost order = self.failed_streams.order();
        let ghost test = |k: Seq<char>| seconds_between(now, before.failed[k]) >= FORGET_AFTER_SECONDS;
        let mut stale: Vec<String> = Vec::new();
        let mut i: usize = 0;
        proof {
            self.failed_streams.lemma_order();
            assert(order.take(0) =~= Seq::<Seq<char>>::empty());
            reveal(Seq::filter);
            assert(texts(stale@) =~= order.take(0).filter(test));
        }
        while i < self.failed_streams.len()
            invariant
                self.wf(),
                self@ == before,
                order == self.failed_streams.order(),
                test == (|k: Seq<char>|
                    seconds_between(now, before.failed[k]) >= FORGET_AFTER_SECONDS),
                0 <= i <= order.len(),
                texts(stale@) == order.take(i as int).filter(test),
            decreases order.len() - i,
        {
            let ghost so_far = texts(stale@);
            let since: Timestamp = *self.failed_streams.value_at(i);
            proof {
                self.failed_streams.lemma_order();
                assert(before.failed[order[i as int]] == since);
                assert(order.take(i + 1).drop_last() =~= order.take(i as int));
                reveal(Seq::filter);
            }
            if elapsed_seconds(now, since) >= FORGET_AFTER_SECONDS {
                stale.push(self.failed_streams.key_at(i).clone());
                assert(texts(stale@) =~= so_far.push(order[i as int]));
            }
            i = i + 1;
        }
        assert(order.take(i as int) =~= order);
        self.failed_streams.remove_keys(&stale);
        proof {
            let gone = texts(stale@).to_set();
            assert forall|k: Seq<char>|
                #[trigger] before.failed.remove_keys(gone).contains_key(k) <==> before.recent_failures(
                    now,
                ).contains_key(k) by {
                lemma_filter_contains(order, test, k);
                assert(order.contains(k) <==> order.to_set().contains(k));
            }
            assert(before.failed.remove_keys(gone) =~= before.recent_failures(now));
        }
    }

    /// One round of cleaning now: stops the idle streams, and forgets old failures,
    /// viewers and sessions. The streams that were stopped are given back: their
    /// processes are to be ended, and their files and cached segments removed.
    pub fn cleanup_idle_streams(&mut self) -> (r: Vec<String>)
        requires
            old(self).wf(),
        ensures
            final(self).wf(),
            exists|now: Timestamp|
                {
                    &&& texts(r@) == #[trigger] old(self)@.idle_among(
                        old(self).active_streams.order(),
                        now,
                    )
                    &&& final(self)@ == old(self)@.cleaned(texts(r@), now)
                },
    {
        let now = utc_now();
        self.cleanup_idle_streams_at(now)
    }

    /// One round of cleaning at `now`.
    pub fn cleanup_idle_streams_at(&mut self, now: Timestamp) -> (r: Vec<String>)
        requires
            old(self).wf(),
        ensures
            final(self).wf(),
            texts(r@) == old(self)@.idle_among(old(self).active_streams.order(), now),
            final(self)@ == old(self)@.cleaned(texts(r@), now),
    {
        let idle = self.idle_streams_at(now);
        self.stop_streams(&idle);
        self.forget_failures_at(now);
        self.viewer_tracker.cleanup_inactive_viewers_at(now);
        self.session_manager.cleanup_expired_sessions_at(now);
        idle
    }

    /// Stops everything. The streams that were stopped are given back.
    pub fn graceful_shutdown(&mut self) -> (r: Vec<String>)
        requires
            old(self).wf(),
        ensures
            final(self).wf(),
            texts(r@) == old(self).active_streams.order(),
            final(self)@ == (ManagerView { pending: Map::empty(), ..old(self)@ }).stopped_all(
                old(self).active_streams.order(),
            ),
    {
        self.pending_streams.clear();
        let keys = self.active_streams.keys();
        self.stop_streams(&keys);
        keys
    }
}

// ---------------------------------------------------------------------------
// Laws
// ---------------------------------------------------------------------------

proof fn lemma_stopped_all(v: ManagerView, keys: Seq<Seq<char>>)
    ensures
        v.stopped_all(keys).active == v.active.remove_keys(keys.to_set()),
        v.stopped_all(keys).settings == v.settings,
        v.stopped_all(keys).pending == v.pending,
        v.stopped_all(keys).failed == v.failed,
    decreases keys.len(),
{
    if keys.len() == 0 {
        assert(v.active.remove_keys(keys.to_set()) =~= v.active);
    } else {
        let front = keys.drop_last();
        lemma_stopped_all(v, front);
        assert forall|k: Seq<char>| keys.contains(k) <==> front.contains(k) || k == keys.last() by {
            if keys.contains(k) {
                let i = keys.index_of(k);
                if i < front.len() {
                    assert(front[i] == k);
                }
            }
            if front.contains(k) {
                assert(keys[front.index_of(k)] == k);
            }
            assert(keys[keys.len() - 1] == keys.last());
        }
        assert(v.stopped_all(keys).active =~= v.active.remove_keys(keys.to_set()));
    }
}

/// However many requests to start streams overlap, no more streams run or are being started
/// than may run at once: a request keeps the limit, and a launch is only granted below it.
pub proof fn law_launch_keeps_limit(
    v: ManagerView,
    key: Seq<char>,
    now: Timestamp,
    step: StartStep,
    after: ManagerView,
)
    requires
        v.within_limit(),
        start_step(v, key, now, step, after),
    ensures
        after.within_limit(),
        after.active == v.active,
        step is Launch ==> !v.at_limit(),
{
    assert(v.began(key, now).pending.dom() =~= v.pending.dom().insert(key));
}

/// The end of an attempt to start a stream keeps the limit, whether the stream then runs or
/// not.
pub proof fn law_started_stream_keeps_limit(v: ManagerView, key: Seq<char>, pid: u32, now: Timestamp)
    requires
        v.within_limit(),
        v.pending.contains_key(key),
    ensures
        v.started(key, pid, now).within_limit(),
        v.started(key, pid, now).active.dom().len() <= v.settings.max_concurrent_streams,
        v.start_failed(key, now).within_limit(),
{
    assert(v.started(key, pid, now).active.dom() =~= v.active.dom().insert(key));
    assert(v.started(key, pid, now).pending.dom() =~= v.pending.dom().remove(key));
    assert(v.start_failed(key, now).pending.dom() =~= v.pending.dom().remove(key));
}

/// Once an attempt to start a stream has ended, as many places are taken as before it, and
/// one more only where the stream runs.
pub proof fn law_ended_attempt_frees_its_place(
    v: ManagerView,
    key: Seq<char>,
    pid: u32,
    begun: Timestamp,
    ended: Timestamp,
)
    requires
        v.active.dom().finite(),
        v.pending.dom().finite(),
        !v.active.contains_key(key),
        !v.pending.contains_key(key),
    ensures
        v.began(key, begun).places() == v.places() + 1,
        v.began(key, begun).started(key, pid, ended).places() == v.places() + 1,
        v.began(key, begun).start_failed(key, ended).places() == v.places(),
{
    let w = v.began(key, begun);
    assert(w.pending.dom() =~= v.pending.dom().insert(key));
    assert(w.pending.remove(key).dom() =~= v.pending.dom());
    assert(w.started(key, pid, ended).active.dom() =~= v.active.dom().insert(key));
}

/// The end of streams keeps the limit.
pub proof fn law_ended_streams_keep_limit(
    v: ManagerView,
    key: Seq<char>,
    idle: Seq<Seq<char>>,
    now: Timestamp,
)
    requires
        v.within_limit(),
    ensures
        v.stopped(key).within_limit(),
        v.cleaned(idle, now).within_limit(),
        (ManagerView { pending: Map::empty(), ..v }).stopped_all(idle).within_limit(),
{
    assert(v.stopped(key).active.dom() =~= v.active.dom().remove(key));
    lemma_stopped_all(v, idle);
    assert(v.active.remove_keys(idle.to_set()).dom() =~= v.active.dom().difference(idle.to_set()));
    vstd::set_lib::lemma_len_difference(v.active.dom(), idle.to_set());
    let w = ManagerView { pending: Map::empty(), ..v };
    lemma_stopped_all(w, idle);
    assert(w.pending.dom() =~= Set::<Seq<char>>::empty());
}

/// Where as many streams run or are being started as may, no other is launched, and the
/// request changes nothing.
pub proof fn law_no_launch_at_limit(
    v: ManagerView,
    key: Seq<char>,
    now: Timestamp,
    step: StartStep,
    after: ManagerView,
)
    requires
        v.at_limit(),
        start_step(v, key, now, step, after),
    ensures
        step !is Launch,
        !v.active.contains_key(key) && !v.pending.contains_key(key) ==> step is AtCapacity,
        after == v,
{
}

/// A request to start a stream that runs finds it running and changes nothing, also where
/// there is no room for another.
pub proof fn law_running_stream_is_left_alone(
    v: ManagerView,
    key: Seq<char>,
    now: Timestamp,
    step: StartStep,
    after: ManagerView,
)
    requires
        v.active.contains_key(key),
        start_step(v, key, now, step, after),
    ensures
        step is AlreadyActive,
        after == v,
{
}

/// A stream that failed to start is left alone for a while, and a viewer who waits for it
/// learns of the failure.
pub proof fn law_failed_stream_rests(
    v: ManagerView,
    key: Seq<char>,
    failed: Timestamp,
    now: Timestamp,
    step: StartStep,
    after: ManagerView,
)
    requires
        seconds_between(now, failed) < 30,
        start_step(v.start_failed(key, failed), key, now, step, after),
    ensures
        step !is Launch,
        after == v.start_failed(key, failed),
        forall|elapsed: u128, millis: u64, next: WaitStep, w: ManagerView| #[trigger]
            wait_step(v.start_failed(key, failed), key, false, elapsed, millis, now, next, w)
                ==> next is Failed || next is TimedOut,
{
}

/// After a round of cleaning no stream that runs is idle, every stream that was not idle
/// still runs as it did, and of the failures exactly the recent ones are remembered.
pub proof fn law_cleaning_keeps_what_is_recent(
    v: ManagerView,
    order: Seq<Seq<char>>,
    now: Timestamp,
    key: Seq<char>,
)
    requires
        order.to_set() == v.active.dom(),
    ensures
        ({
            let w = v.cleaned(v.idle_among(order, now), now);
            &&& w.active.contains_key(key) <==> v.active.contains_key(key) && !is_idle(
                v.active[key],
                now,
                v.settings.stream_timeout,
            )
            &&& w.active.contains_key(key) ==> w.active[key] == v.active[key]
            &&& w.pending == v.pending
            &&& w.failed.contains_key(key) <==> v.failed.contains_key(key) && seconds_between(
                now,
                v.failed[key],
            ) < FORGET_AFTER_SECONDS
        }),
{
    let idle = v.idle_among(order, now);
    let test = |k: Seq<char>| is_idle(v.active[k], now, v.settings.stream_timeout);
    lemma_stopped_all(v, idle);
    lemma_filter_contains(order, test, key);
    assert(order.contains(key) <==> order.to_set().contains(key));
}

/// A stream that was stopped does not run, has no viewers, however they are counted, and
/// no segment in the cache; the segments of other streams stay.
pub proof fn law_stopped_stream_is_gone(v: ManagerView, key: Seq<char>, now: Timestamp)
    requires
        v.sessions.consistent(),
    ensures
        !v.stopped(key).active.contains_key(key),
        v.stopped(key).sessions.stream_viewers(key, now) == 0,
        forall|entry: Seq<char>| #[trigger]
            v.stopped(key).cache.entries.contains(entry) <==> v.cache.entries.contains(entry)
                && !is_entry_of(entry, key),
        forall|entry: Seq<char>, found: Option<CachedSegment>|
            v.cache.entries.contains(entry) && is_entry_of(entry, key)
                ==> #[trigger] v.stopped(key).cache.lookup(entry, found) is Load,
        v.stopped(key).viewers.viewer_count(key, now) == 0,
{
    crate::sessions::law_cleared_stream_has_no_viewers(v.sessions, key, key, now);
    crate::viewers::law_forgotten_stream_has_no_viewers(v.viewers, key, now);
}

/// After a shutdown nothing runs and nothing is being started.
pub proof fn law_shutdown_leaves_nothing(v: ManagerView, order: Seq<Seq<char>>)
    requires
        order.to_set() == v.active.dom(),
    ensures
        (ManagerView { pending: Map::empty(), ..v }).stopped_all(order).active == Map::<
            Seq<char>,
            StreamInfo,
        >::empty(),
        (ManagerView { pending: Map::empty(), ..v }).stopped_all(order).pending == Map::<
            Seq<char>,
            Timestamp,
        >::empty(),
{
    let w = ManagerView { pending: Map::empty(), ..v };
    lemma_stopped_all(w, order);
    assert(w.active.remove_keys(order.to_set()) =~= Map::<Seq<char>, StreamInfo>::empty());
}

/// A round of cleaning stops exactly the streams that nobody has asked for in more whole
/// seconds than the stream timeout, whenever they started, and with each goes what is cached
/// of it. A failure is forgotten once five minutes have passed since.
pub proof fn law_silent_stream_is_stopped(
    v: ManagerView,
    order: Seq<Seq<char>>,
    now: Timestamp,
    key: Seq<char>,
)
    requires
        order.to_set() == v.active.dom(),
    ensures
        ({
            let stopped = v.idle_among(order, now);
            let w = v.cleaned(stopped, now);
            let silent = v.active.contains_key(key) && seconds_between(
                now,
                v.active[key].last_accessed,
            ) > v.settings.stream_timeout as i64;
            &&& stopped.contains(key) <==> silent
            &&& w.active.contains_key(key) <==> v.active.contains_key(key) && !silent
            &&& w.active.contains_key(key) ==> w.active[key] == v.active[key]
            &&& silent ==> forall|entry: Seq<char>| #[trigger]
                w.cache.entries.contains(entry) ==> !is_entry_of(entry, key)
            &&& w.failed.contains_key(key) <==> v.failed.contains_key(key) && seconds_between(
                now,
                v.failed[key],
            ) < 300
        }),
{
    let idle = v.idle_among(order, now);
    let test = |k: Seq<char>| is_idle(v.active[k], now, v.settings.stream_timeout);
    law_cleaning_keeps_what_is_recent(v, order, now, key);
    lemma_filter_contains(order, test, key);
    assert(order.contains(key) <==> order.to_set().contains(key));
    lemma_stopped_all_cache(v, idle);
    if idle.contains(key) {
        assert forall|entry: Seq<char>| #[trigger]
            v.cleaned(idle, now).cache.entries.contains(entry) implies !is_entry_of(entry, key) by {
            assert(idle[idle.index_of(key)] == key);
        }
    }
}

proof fn lemma_stopped_all_cache(v: ManagerView, keys: Seq<Seq<char>>)
    ensures
        forall|entry: Seq<char>, i: int|
            #![trigger v.stopped_all(keys).cache.entries.contains(entry), keys[i]]
            v.stopped_all(keys).cache.entries.contains(entry) && 0 <= i < keys.len() ==> !is_entry_of(
                entry,
                keys[i],
            ),
    decreases keys.len(),
{
    if keys.len() > 0 {
        let front = keys.drop_last();
        lemma_stopped_all_cache(v, front);
        assert forall|entry: Seq<char>, i: int|
            #![trigger v.stopped_all(keys).cache.entries.contains(entry), keys[i]]
            v.stopped_all(keys).cache.entries.contains(entry) && 0 <= i < keys.len() implies !is_entry_of(
            entry,
            keys[i],
        ) by {
            assert(v.stopped_all(front).cache.entries.contains(entry));
            if i < front.len() {
                assert(front[i] == keys[i]);
            }
        }
    }
}

/// A request for a stream that runs sets the time of its last access, and nothing else; one
/// for any other stream changes nothing.
pub proof fn law_access_is_noted(v: ManagerView, key: Seq<char>, other: Seq<char>, now: Timestamp)
    requires
        other != key,
    ensures
        ({
            let w = v.accessed(key, now);
            &&& v.active.contains_key(key) ==> {
                &&& w.active[key].last_accessed == now
                &&& w.active[key].started_at == v.active[key].started_at
                &&& w.active[key].pid == v.active[key].pid
            }
            &&& !v.active.contains_key(key) ==> w == v
            &&& w.active.contains_key(key) <==> v.active.contains_key(key)
            &&& w.active.contains_key(other) <==> v.active.contains_key(other)
            &&& v.active.contains_key(other) ==> w.active[other] == v.active[other]
            &&& w.pending == v.pending && w.failed == v.failed && w.stats == v.stats
            &&& w.sessions == v.sessions && w.viewers == v.viewers && w.cache == v.cache
            &&& w.settings == v.settings && w.history == v.history
        }),
{
}

/// A stream whose process was started runs from that moment on under that process; the
/// start, a failure and a stop are each counted once, a failure is remembered with its time,
/// and no other stream is touched.
pub proof fn law_outcomes_are_counted(
    v: ManagerView,
    key: Seq<char>,
    other: Seq<char>,
    pid: u32,
    now: Timestamp,
)
    requires
        other != key,
        v.stats.started < u64::MAX,
        v.stats.failed < u64::MAX,
        v.stats.stopped < u64::MAX,
    ensures
        ({
            let w = v.began(key, now);
            &&& w.pending.contains_key(key) && w.pending[key] == now
            &&& w.active == v.active && w.failed == v.failed && w.stats == v.stats
            &&& w.pending.contains_key(other) <==> v.pending.contains_key(other)
        }),
        ({
            let w = v.started(key, pid, now);
            &&& w.active.contains_key(key) && !w.pending.contains_key(key)
            &&& w.active[key].pid == pid
            &&& w.active[key].started_at == now && w.active[key].last_accessed == now
            &&& w.stats.started == v.stats.started + 1
            &&& w.stats.failed == v.stats.failed && w.stats.stopped == v.stats.stopped
            &&& w.active.contains_key(other) <==> v.active.contains_key(other)
            &&& v.active.contains_key(other) ==> w.active[other] == v.active[other]
            &&& w.failed == v.failed
            &&& process_number(Some(pid)) == pid
            &&& process_number(None) == 0
        }),
        ({
            let w = v.start_failed(key, now);
            &&& !w.pending.contains_key(key) && w.active == v.active
            &&& w.failed.contains_key(key) && w.failed[key] == now
            &&& w.failed.contains_key(other) <==> v.failed.contains_key(other)
            &&& v.failed.contains_key(other) ==> w.failed[other] == v.failed[other]
            &&& w.stats.failed == v.stats.failed + 1
            &&& w.stats.started == v.stats.started && w.stats.stopped == v.stats.stopped
        }),
        ({
            let w = v.stopped(key);
            &&& !w.active.contains_key(key)
            &&& v.active.contains_key(key) ==> w.stats.stopped == v.stats.stopped + 1
            &&& !v.active.contains_key(key) ==> w.stats.stopped == v.stats.stopped
            &&& w.stats.started == v.stats.started && w.stats.failed == v.stats.failed
            &&& w.active.contains_key(other) <==> v.active.contains_key(other)
            &&& v.active.contains_key(other) ==> w.active[other] == v.active[other]
            &&& w.pending == v.pending && w.failed == v.failed
        }),
{
}

/// A stream that neither runs nor is being started is launched, where there is room,
/// exactly if it has not failed in the last half minute; the command is for that stream.
pub proof fn law_failure_delays_launch(
    v: ManagerView,
    key: Seq<char>,
    now: Timestamp,
    step: StartStep,
    after: ManagerView,
)
    requires
        start_step(v, key, now, step, after),
        !v.active.contains_key(key),
        !v.pending.contains_key(key),
        v.active.dom().len() + v.pending.dom().len() < v.settings.max_concurrent_streams,
    ensures
        step is Launch <==> !(v.failed.contains_key(key) && seconds_between(now, v.failed[key]) < 30),
        step !is Launch ==> step is RecentlyFailed && after == v,
        step is Launch ==> {
            &&& after.pending.contains_key(key)
            &&& after.pending[key] == now
            &&& after.active == v.active
            &&& encodes(step->0, v.settings, key)
        },
{
}

/// The command reads the stream under its key from the host and port of the settings, and
/// copies it into a playlist of at most twenty segments of five seconds; the playlist and
/// the segments stand in the directory of the stream.
pub proof fn law_command_copies_the_stream(c: EncoderCommand, s: ManagerSettings, key: Seq<char>)
    requires
        encodes(c, s, key),
        s.hls_path.len() > 0,
        s.hls_path.last() != '/',
        key.len() > 0,
        !key.contains('/'),
    ensures
        ({
            let (dir, args) = (s.hls_path + seq!['/'] + key, texts(c.args@));
            &&& c.program@ == "ffmpeg"@
            &&& c.stream_dir@ == dir
            &&& args.len() == 18
            &&& args[3] == "-i"@
            &&& args[4] == "rtmp://"@ + s.host + ":"@ + s.port + "/live/"@ + key
            &&& args[5] == "-c"@ && args[6] == "copy"@
            &&& args[7] == "-f"@ && args[8] == "hls"@
            &&& args[9] == "-hls_time"@ && args[10] == "5"@
            &&& args[11] == "-hls_list_size"@ && args[12] == "20"@
            &&& args[13] == "-hls_flags"@ && args[14] == "delete_segments+append_list"@
            &&& args[15] == "-hls_segment_filename"@
            &&& args[16] == dir + seq!['/'] + key + "_%03d.ts"@
            &&& args[17] == dir + seq!['/'] + "index.m3u8"@
        }),
{
    reveal_strlit("index.m3u8");
    let dir = s.hls_path + seq!['/'] + key;
    assert(key[0] != '/');
    assert(key.last() != '/');
    law_names_stand_below_directories(s.hls_path, key);
    assert(dir.last() == key.last());
    law_names_stand_below_directories(dir, "index.m3u8"@);
    let file = key + "_%03d.ts"@;
    assert(file[0] == key[0]);
    law_names_stand_below_directories(dir, file);
    assert(dir + seq!['/'] + file =~= dir + seq!['/'] + key + "_%03d.ts"@);
    let args = encoder_args(s, key);
    assert(args[16] == dir + seq!['/'] + key + "_%03d.ts"@);
}

/// A viewer gives up once the start timeout has passed since the wait began, and not
/// before; until then the wait ends as soon as the stream is ready, which counts as an
/// access, or once it failed, and the next pause is a fifth longer, or a second.
pub proof fn law_wait_ends_in_time(
    v: ManagerView,
    key: Seq<char>,
    ready: bool,
    elapsed_nanos: u128,
    millis: u64,
    now: Timestamp,
    step: WaitStep,
    after: ManagerView,
)
    requires
        wait_step(v, key, ready, elapsed_nanos, millis, now, step, after),
    ensures
        ({
            let over = elapsed_nanos >= v.settings.stream_start_timeout * 1_000_000_000;
            &&& step is TimedOut <==> over
            &&& step is Ready <==> !over && ready
            &&& step is Failed <==> !over && !ready && v.failed.contains_key(key)
            &&& step is Ready && v.active.contains_key(key) ==> after.active[key].last_accessed == now
            &&& !(step is Ready) ==> after == v
            &&& step is Sleep ==> {
                &&& step->millis == millis
                &&& 5 * step->next_millis <= 6 * millis < 5 * (step->next_millis + 1) || (
                step->next_millis == 1000 && 6 * millis >= 5000)
                &&& step->next_millis <= 1000
            }
        }),
{
}

/// A viewer waits for nothing only where the stream runs and is ready, has it started only
/// where it neither runs nor is being started, and else waits for what goes on.
pub proof fn law_wait_begins_where_needed(
    v: ManagerView,
    key: Seq<char>,
    ready: bool,
    now: Timestamp,
    step: WaitStart,
    after: ManagerView,
)
    requires
        wait_start(v, key, ready, now, step, after),
    ensures
        step is Ready <==> v.active.contains_key(key) && ready,
        step is Start <==> !v.active.contains_key(key) && !v.pending.contains_key(key),
        step is Ready ==> after.active[key].last_accessed == now,
        !(step is Ready) ==> after == v,
{
}

/// Each variable reaches what it is for, and holds a default where it is unset; a manager
/// starts with nothing done.
pub proof fn law_variables_reach_their_place(m: StreamManager, vars: ManagerVars, now: Timestamp, n: nat)
    requires
        m.follows(vars, now),
        n <= u64::MAX,
    ensures
        ({
            let (s, v) = (m@.settings, m@);
            let sets = |var: Option<String>, n: nat| var is Some && var->0@ == decimal(n);
            &&& vars.source_host is Some ==> s.host == vars.source_host->0@
            &&& vars.source_host is None ==> s.host == "rtmp.example.com"@
            &&& vars.source_port is Some ==> s.port == vars.source_port->0@
            &&& vars.source_port is None ==> s.port == "1935"@
            &&& vars.hls_path is Some ==> s.hls_path == vars.hls_path->0@
            &&& vars.hls_path is None ==> s.hls_path == "./hls"@
            &&& sets(vars.stream_timeout, n) ==> s.stream_timeout == n
            &&& vars.stream_timeout is None ==> s.stream_timeout == 30
            &&& sets(vars.stream_start_timeout, n) ==> s.stream_start_timeout == n
            &&& vars.stream_start_timeout is None ==> s.stream_start_timeout == 15
            &&& sets(vars.max_concurrent_streams, n) && n <= usize::MAX ==> s.max_concurrent_streams == n
            &&& vars.max_concurrent_streams is None ==> s.max_concurrent_streams == 50
            &&& sets(vars.cache_max_entries, n) && n <= usize::MAX ==> v.cache.max_entries == n
            &&& vars.cache_max_entries is None ==> v.cache.max_entries == 200
            &&& sets(vars.cache_max_segment_size, n) && n <= usize::MAX ==> v.cache.max_file_size == n
            &&& vars.cache_max_segment_size is None ==> v.cache.max_file_size == 10 * 1024 * 1024
            &&& v.cache.ttl_seconds == 300
            &&& sets(vars.viewer_timeout_seconds, n) ==> v.sessions.timeout == n && v.viewers.timeout == n
            &&& vars.viewer_timeout_seconds is None ==> v.sessions.timeout == 30 && v.viewers.timeout == 30
            &&& vars.viewer_tracking_enabled is None ==> v.sessions.tracking && v.viewers.tracking
            &&& vars.viewer_tracking_enabled is Some && vars.viewer_tracking_enabled->0@ == "false"@
                ==> !v.sessions.tracking && !v.viewers.tracking
            &&& s.server_started_at == now
            &&& v.places() == 0 && v.failed.dom().len() == 0
            &&& v.stats.started == 0 && v.stats.requests == 0 && v.stats.bytes_served == 0
            &&& v.cache.stats.hits == 0 && v.cache.stats.misses == 0
        }),
{
    law_decimal_reads_back(n);
    reveal_strlit("true");
    reveal_strlit("false");
    assert("true"@.len() != "false"@.len());
    assert(m@.active.dom() =~= Set::<Seq<char>>::empty());
    assert(m@.pending.dom() =~= Set::<Seq<char>>::empty());
    assert(m@.failed.dom() =~= Set::<Seq<char>>::empty());
}

/// A stream that is being started is not launched again, also where there is no room for
/// another, and the request changes nothing.
pub proof fn law_one_launch_at_a_time(
    v: ManagerView,
    key: Seq<char>,
    now: Timestamp,
    step: StartStep,
    after: ManagerView,
)
    requires
        !v.active.contains_key(key),
        v.pending.contains_key(key),
        start_step(v, key, now, step, after),
    ensures
        step is AlreadyPending,
        after == v,
{
}

/// A round of cleaning forgets every session and every viewer that was last seen more whole
/// seconds ago than the timeout, and those of the streams that it stops; it keeps every
/// other one as it was.
pub proof fn law_cleaning_forgets_silent_viewers(
    v: ManagerView,
    order: Seq<Seq<char>>,
    now: Timestamp,
    id: Seq<char>,
    stream: Seq<char>,
    hash: Seq<char>,
)
    requires
        order.to_set() == v.active.dom(),
        v.sessions.consistent(),
        v.sessions.tracking,
        v.viewers.tracking,
    ensures
        ({
            let stopped = v.idle_among(order, now);
            let w = v.cleaned(stopped, now);
            let (before, after) = (v.sessions.sessions, w.sessions.sessions);
            let (known, kept) = (v.viewers.viewers_of(stream), w.viewers.viewers_of(stream));
            &&& after.contains_key(id) <==> before.contains_key(id) && seconds_between(
                now,
                before[id].last_seen,
            ) <= v.sessions.timeout as i64 && !stopped.contains(before[id].stream_key)
            &&& after.contains_key(id) ==> after[id] == before[id]
            &&& kept.contains_key(hash) <==> known.contains_key(hash) && seconds_between(
                now,
                known[hash].last_seen,
            ) <= v.viewers.timeout as i64 && !stopped.contains(stream)
            &&& kept.contains_key(hash) ==> kept[hash] == known[hash]
            &&& w.history == v.history
            &&& w.settings == v.settings
        }),
{
    let stopped = v.idle_among(order, now);
    lemma_stopped_all(v, stopped);
    lemma_stopped_all_viewers(v, stopped, id, stream);
    crate::viewers::law_viewer_sweep_forgets_the_silent(
        v.stopped_all(stopped).viewers,
        stream,
        hash,
        now,
    );
}

proof fn lemma_stopped_all_viewers(
    v: ManagerView,
    keys: Seq<Seq<char>>,
    id: Seq<char>,
    stream: Seq<char>,
)
    requires
        v.sessions.consistent(),
        v.sessions.tracking,
        v.viewers.tracking,
    ensures
        ({
            let w = v.stopped_all(keys);
            &&& w.sessions.consistent()
            &&& w.sessions.tracking
            &&& w.sessions.timeout == v.sessions.timeout
            &&& w.viewers.tracking
            &&& w.viewers.timeout == v.viewers.timeout
            &&& w.history == v.history
            &&& w.sessions.sessions.contains_key(id) <==> v.sessions.sessions.contains_key(id)
                && !keys.contains(v.sessions.sessions[id].stream_key)
            &&& w.sessions.sessions.contains_key(id) ==> w.sessions.sessions[id]
                == v.sessions.sessions[id]
            &&& keys.contains(stream) ==> w.viewers.viewers_of(stream).dom() == Set::<Seq<char>>::empty()
            &&& !keys.contains(stream) ==> w.viewers.viewers_of(stream) == v.viewers.viewers_of(stream)
        }),
    decreases keys.len(),
{
    if keys.len() > 0 {
        let front = keys.drop_last();
        lemma_stopped_all_viewers(v, front, id, stream);
        let w = v.stopped_all(front);
        crate::sessions::lemma_cleared_consistent(w.sessions, keys.last());
        crate::sessions::law_clearing_spares_other_streams(w.sessions, keys.last(), id);
        let own = v.sessions.sessions[id].stream_key;
        lemma_last_or_before(keys, own);
        lemma_last_or_before(keys, stream);
        let cleared = w.viewers.cleared(keys.last());
        if stream == keys.last() {
            assert(cleared.viewers_of(stream).dom() =~= Set::<Seq<char>>::empty());
        } else {
            assert(cleared.viewers_of(stream) == w.viewers.viewers_of(stream));
        }
    }
}

proof fn lemma_last_or_before(keys: Seq<Seq<char>>, key: Seq<char>)
    requires
        keys.len() > 0,
    ensures
        keys.contains(key) <==> keys.drop_last().contains(key) || key == keys.last(),
{
    let front = keys.drop_last();
    if keys.contains(key) {
        let i = keys.index_of(key);
        if i < front.len() {
            assert(front[i] == key);
        }
    }
    if front.contains(key) {
        assert(keys[front.index_of(key)] == key);
    }
    assert(keys[keys.len() - 1] == keys.last());
}

} // verus!
