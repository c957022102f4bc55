//! What a deployment sets: ports, limits, encoding ladder, cache, tracking.
use crate::text::decimal;
use vstd::prelude::*;
use vstd::string::*;

verus! {

broadcast use vstd::string::group_string_axioms;

#[derive(Debug, Clone, PartialEq)]
pub struct Config {
    pub server: ServerConfig,
    pub rtmp: RtmpConfig,
    pub stream: StreamConfig,
    pub ffmpeg: FfmpegConfig,
    pub abr: AbrConfig,
    pub cache: CacheConfig,
    pub viewer: ViewerConfig,
    pub ssl: SslConfig,
    pub logging: LoggingConfig,
    pub elasticsearch: ElasticsearchConfig,
}

#[derive(Debug, Clone, PartialEq)]
pub struct ServerConfig {
    pub port: u16,
    pub hls_path: String,
}

#[derive(Debug, Clone, PartialEq)]
pub struct RtmpConfig {
    pub source_host: String,
    pub source_port: u16,
}

#[derive(Debug, Clone, PartialEq)]
pub struct StreamConfig {
    pub max_concurrent_streams: usize,
    pub stream_timeout: u64,
    pub stream_start_timeout: u64,
}

#[derive(Debug, Clone, PartialEq)]
pub struct FfmpegConfig {
    pub hls_time: u64,
    pub hls_list_size: u64,
    pub rw_timeout: u64,
}

#[derive(Debug, Clone, PartialEq)]
pub struct AbrConfig {
    pub enabled: bool,
    pub variants: Vec<StreamVariant>,
}

/// One rung of the encoding ladder.
#[derive(Debug, Clone, PartialEq)]
pub struct StreamVariant {
    pub name: String,
    pub width: u32,
    pub height: u32,
    pub bitrate: u32,
    pub audio_bitrate: u32,
    pub framerate: u32,
    pub profile: String,
    pub preset: String,
}

#[derive(Debug, Clone, PartialEq)]
pub struct CacheConfig {
    pub max_entries: usize,
    pub max_segment_size: usize,
    pub ttl_seconds: u64,
}

#[derive(Debug, Clone, PartialEq)]
pub struct ViewerConfig {
    pub tracking_enabled: bool,
    pub timeout_seconds: u64,
}

#[derive(Debug, Clone, PartialEq)]
pub struct SslConfig {
    pub enabled: bool,
    pub domains: Vec<String>,
    pub email: String,
    pub staging: bool,
    pub cert_cache_dir: String,
    pub port: u16,
    pub http_redirect: bool,
}

#[derive(Debug, Clone, PartialEq)]
pub struct LoggingConfig {
    pub level: String,
}

#[derive(Debug, Clone, PartialEq)]
pub struct ElasticsearchConfig {
    pub enabled: bool,
    pub url: Option<String>,
    pub index_prefix: String,
    pub batch_size: usize,
    pub flush_interval_seconds: u64,
    pub server_name: Option<String>,
    pub username: String,
    pub password: String,
}

/// What a rung of the ladder says.
pub struct VariantView {
    pub name: Seq<char>,
    pub width: u32,
    pub height: u32,
    pub bitrate: u32,
    pub audio_bitrate: u32,
    pub framerate: u32,
    pub profile: Seq<char>,
    pub preset: Seq<char>,
}

impl View for StreamVariant {
    type V = VariantView;

    open spec fn view(&self) -> VariantView {
        VariantView {
            name: self.name@,
            width: self.width,
            height: self.height,
            bitrate: self.bitrate,
            audio_bitrate: self.audio_bitrate,
            framerate: self.framerate,
            profile: self.profile@,
            preset: self.preset@,
        }
    }
}

/// What the rungs of a ladder say.
pub open spec fn ladder(variants: Seq<StreamVariant>) -> Seq<VariantView> {
    variants.map_values(|v: StreamVariant| v@)
}

/// The numbers derived from a rung fit into 32 bits: twice its bitrate and frame
/// rate, and its total bandwidth in bits.
pub open spec fn variant_fits(v: VariantView) -> bool {
    &&& v.bitrate * 2 <= u32::MAX
    &&& v.framerate * 2 <= u32::MAX
    &&& v.bitrate * 1000 + v.audio_bitrate * 1000 <= u32::MAX
}

/// The ladder that a deployment has unless it sets another.
pub open spec fn default_ladder() -> Seq<VariantView> {
    seq![
        VariantView {
            name: "360p"@,
            width: 640,
            height: 360,
            bitrate: 800,
            audio_bitrate: 96,
            framerate: 30,
            profile: "main"@,
            preset: "veryfast"@,
        },
        VariantView {
            name: "480p"@,
            width: 854,
            height: 480,
            bitrate: 1400,
            audio_bitrate: 128,
            framerate: 30,
            profile: "main"@,
            preset: "veryfast"@,
        },
        VariantView {
            name: "720p"@,
            width: 1280,
            height: 720,
            bitrate: 2800,
            audio_bitrate: 128,
            framerate: 30,
            profile: "main"@,
            preset: "veryfast"@,
        },
        VariantView {
            name: "1080p"@,
            width: 1920,
            height: 1080,
            bitrate: 5000,
            audio_bitrate: 192,
            framerate: 30,
            profile: "high"@,
            preset: "veryfast"@,
        },
    ]
}

impl Config {
    /// Every setting has the value that holds where a deployment sets none.
    pub open spec fn has_default_values(self) -> bool {
        &&& self.server.port == 8080
        &&& self.server.hls_path@ == "/hls"@
        &&& self.rtmp.source_host@ == "rtmp.example.com"@
        &&& self.rtmp.source_port == 1935
        &&& self.stream.max_concurrent_streams == 50
        &&& self.stream.stream_timeout == 30
        &&& self.stream.stream_start_timeout == 15
        &&& self.ffmpeg.hls_time == 1
        &&& self.ffmpeg.hls_list_size == 20
        &&& self.ffmpeg.rw_timeout == 100_000
        &&& self.abr.enabled
        &&& ladder(self.abr.variants@) == default_ladder()
        &&& self.cache.max_entries == 200
        &&& self.cache.max_segment_size == 10_485_760
        &&& self.cache.ttl_seconds == 300
        &&& self.viewer.tracking_enabled
        &&& self.viewer.timeout_seconds == 30
        &&& !self.ssl.enabled
        &&& crate::text::texts(self.ssl.domains@) == seq!["example.com"@, "www.example.com"@]
        &&& self.ssl.email@ == "admin@example.com"@
        &&& self.ssl.staging
        &&& self.ssl.cert_cache_dir@ == "/etc/cascade/certs"@
        &&& self.ssl.port == 443
        &&& self.ssl.http_redirect
        &&& self.logging.level@ == "info"@
        &&& !self.elasticsearch.enabled
        &&& self.elasticsearch.url is Some
        &&& self.elasticsearch.url->0@ == "http://localhost:9200"@
        &&& self.elasticsearch.index_prefix@ == "cascade-metrics"@
        &&& self.elasticsearch.batch_size == 10
        &&& self.elasticsearch.flush_interval_seconds == 10
        &&& self.elasticsearch.server_name is None
        &&& self.elasticsearch.username@ == "elastic"@
        &&& self.elasticsearch.password@ == "admin"@
    }

    /// The settings of a deployment that sets nothing.
    pub fn default() -> (r: Self)
        ensures
            r.has_default_values(),
    {
        let variants = default_variants();
        let mut domains: Vec<String> = Vec::new();
        domains.push("example.com".to_owned());
        domains.push("www.example.com".to_owned());
        assert(crate::text::texts(domains@) =~= seq!["example.com"@, "www.example.com"@]);
        Self {
            server: ServerConfig { port: 8080, hls_path: "/hls".to_owned() },
            rtmp: RtmpConfig { source_host: "rtmp.example.com".to_owned(), source_port: 1935 },
            stream: StreamConfig {
                max_concurrent_streams: 50,
                stream_timeout: 30,
                stream_start_timeout: 15,
            },
            ffmpeg: FfmpegConfig { hls_time: 1, hls_list_size: 20, rw_timeout: 100_000 },
            abr: AbrConfig { enabled: true, variants },
            cache: CacheConfig { max_entries: 200, max_segment_size: 10_485_760, ttl_seconds: 300 },
            viewer: ViewerConfig { tracking_enabled: true, timeout_seconds: 30 },
            ssl: SslConfig {
                enabled: false,
                domains,
                email: "admin@example.com".to_owned(),
                staging: true,
                cert_cache_dir: "/etc/cascade/certs".to_owned(),
                port: 443,
                http_redirect: true,
            },
            logging: LoggingConfig { level: "info".to_owned() },
            elasticsearch: ElasticsearchConfig {
                enabled: false,
                url: Some("http://localhost:9200".to_owned()),
                index_prefix: "cascade-metrics".to_owned(),
                batch_size: 10,
                flush_interval_seconds: 10,
                server_name: None,
                username: "elastic".to_owned(),
                password: "admin".to_owned(),
            },
        }
    }

    /// The settings that were read, or the default ones where none could be.
    pub fn loaded_or_default(loaded: Option<Config>) -> (r: Self)
        ensures
            match loaded {
                Some(c) => r == c,
                None => r.has_default_values(),
            },
    {
        match loaded {
            Some(c) => c,
            None => Config::default(),
        }
    }
}

impl AbrConfig {
    /// Streams are encoded into several renditions.
    pub open spec fn is_adaptive(self) -> bool {
        self.enabled && self.variants@.len() > 0
    }

    /// Whether streams are encoded into several renditions.
    pub fn adaptive(&self) -> (r: bool)
        ensures
            r == self.is_adaptive(),
    {
        self.enabled && self.variants.len() > 0
    }

    /// An equal ladder.
    pub fn duplicate(&self) -> (r: Self)
        ensures
            r.enabled == self.enabled,
            r.variants@ == self.variants@,
    {
        let mut variants: Vec<StreamVariant> = Vec::new();
        let mut i: usize = 0;
        while i < self.variants.len()
            invariant
                0 <= i <= self.variants@.len(),
                variants@ == self.variants@.take(i as int),
            decreases self.variants@.len() - i,
        {
            variants.push(self.variants[i].duplicate());
            assert(variants@ =~= self.variants@.take(i + 1));
            i = i + 1;
        }
        assert(self.variants@.take(i as int) =~= self.variants@);
        AbrConfig { enabled: self.enabled, variants }
    }
}

impl StreamVariant {
    /// An equal rung.
    pub fn duplicate(&self) -> (r: Self)
        ensures
            r == *self,
    {
        StreamVariant {
            name: self.name.clone(),
            width: self.width,
            height: self.height,
            bitrate: self.bitrate,
            audio_bitrate: self.audio_bitrate,
            framerate: self.framerate,
            profile: self.profile.clone(),
            preset: self.preset.clone(),
        }
    }

    /// Whether the numbers derived from the rung fit into 32 bits.
    pub fn fits(&self) -> (r: bool)
        ensures
            r == variant_fits(self@),
    {
        self.bitrate as u64 * 2 <= u32::MAX as u64 && self.framerate as u64 * 2 <= u32::MAX as u64
            && self.bitrate as u64 * 1000 + self.audio_bitrate as u64 * 1000 <= u32::MAX as u64
    }
}

fn variant(
    name: &str,
    width: u32,
    height: u32,
    bitrate: u32,
    audio_bitrate: u32,
    profile: &str,
) -> (r: StreamVariant)
    ensures
        r@ == (VariantView {
            name: name@,
            width,
            height,
            bitrate,
            audio_bitrate,
            framerate: 30,
            profile: profile@,
            preset: "veryfast"@,
        }),
{
    StreamVariant {
        name: name.to_owned(),
        width,
        height,
        bitrate,
        audio_bitrate,
        framerate: 30,
        profile: profile.to_owned(),
        preset: "veryfast".to_owned(),
    }
}

fn default_variants() -> (r: Vec<StreamVariant>)
    ensures
        ladder(r@) == default_ladder(),
{
    let mut r: Vec<StreamVariant> = Vec::new();
    r.push(variant("360p", 640, 360, 800, 96, "main"));
    r.push(variant("480p", 854, 480, 1400, 128, "main"));
    r.push(variant("720p", 1280, 720, 2800, 128, "main"));
    r.push(variant("1080p", 1920, 1080, 5000, 192, "high"));
    assert(ladder(r@) =~= default_ladder());
    r
}

/// Where a deployment sets nothing, streams are encoded at four sizes. From one rung to the
/// next the picture and its rate grow, each rung is named after its height, and all its
/// numbers fit.
pub proof fn law_default_ladder_climbs(c: Config, i: int)
    requires
        c.has_default_values(),
        0 <= i < ladder(c.abr.variants@).len(),
    ensures
        ({
            let rungs = ladder(c.abr.variants@);
            &&& c.abr.is_adaptive()
            &&& rungs.len() == 4
            &&& rungs[0].height == 360 && rungs[0].width == 640 && rungs[0].bitrate == 800
            &&& rungs[1].height == 480 && rungs[1].width == 854 && rungs[1].bitrate == 1400
            &&& rungs[2].height == 720 && rungs[2].width == 1280 && rungs[2].bitrate == 2800
            &&& rungs[3].height == 1080 && rungs[3].width == 1920 && rungs[3].bitrate == 5000
            &&& rungs[0].audio_bitrate == 96 && rungs[1].audio_bitrate == 128
            &&& rungs[2].audio_bitrate == 128 && rungs[3].audio_bitrate == 192
            &&& rungs[i].framerate == 30
            &&& rungs[i].preset == "veryfast"@
            &&& rungs[i].profile == (if i < 3 { "main"@ } else { "high"@ })
            &&& rungs[i].name == decimal(rungs[i].height as nat) + "p"@
            &&& variant_fits(rungs[i])
            &&& i > 0 ==> {
                &&& rungs[i - 1].height < rungs[i].height
                &&& rungs[i - 1].width < rungs[i].width
                &&& rungs[i - 1].bitrate < rungs[i].bitrate
                &&& rungs[i - 1].audio_bitrate <= rungs[i].audio_bitrate
            }
        }),
{
    reveal_strlit("p");
    reveal_strlit("360p");
    reveal_strlit("480p");
    reveal_strlit("720p");
    reveal_strlit("1080p");
    reveal_with_fuel(decimal, 4);
    let rungs = default_ladder();
    assert(rungs[0].name =~= decimal(360) + "p"@);
    assert(rungs[1].name =~= decimal(480) + "p"@);
    assert(rungs[2].name =~= decimal(720) + "p"@);
    assert(rungs[3].name =~= decimal(1080) + "p"@);
    assert(c.abr.variants@.len() == 4);
}

/// What holds where a deployment sets nothing.
pub proof fn law_default_values(c: Config)
    requires
        c.has_default_values(),
    ensures
        c.server.port == 8080,
        c.server.hls_path@ == "/hls"@,
        c.rtmp.source_port == 1935,
        c.stream.max_concurrent_streams == 50,
        c.stream.stream_timeout == 30,
        c.stream.stream_start_timeout == 15,
        c.ffmpeg.hls_time == 1,
        c.ffmpeg.hls_list_size == 20,
        c.ffmpeg.rw_timeout == 100_000,
        c.cache.max_entries == 200,
        c.cache.max_segment_size == 10 * 1024 * 1024,
        c.cache.ttl_seconds == 300,
        c.viewer.tracking_enabled,
        c.viewer.timeout_seconds == 30,
        !c.ssl.enabled,
        c.ssl.staging,
        c.ssl.port == 443,
        c.ssl.http_redirect,
        c.logging.level@ == "info"@,
        !c.elasticsearch.enabled,
        c.elasticsearch.index_prefix@ == "cascade-metrics"@,
        c.elasticsearch.batch_size == 10,
        c.elasticsearch.flush_interval_seconds == 10,
        c.elasticsearch.server_name is None,
{
}

/// Streams are encoded into renditions exactly where that is switched on and the ladder has
/// a rung.
pub proof fn law_adaptive_needs_a_rung(c: AbrConfig)
    ensures
        c.is_adaptive() <==> c.enabled && exists|i: int|
            0 <= i < c.variants@.len() && ladder(c.variants@)[i] == (#[trigger] c.variants@[i])@,
{
    if c.variants@.len() > 0 {
        assert(ladder(c.variants@)[0] == c.variants@[0]@);
    }
}

} // verus!
